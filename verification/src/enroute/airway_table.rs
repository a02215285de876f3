//! The table of airways: the statements on it, and laying out records for it.

use crate::db;
use crate::db::{BoundQuery, Cell};
use crate::enroute::airway_rows;
use crate::enroute::airway_rows::AirwayRecord;
use crate::records;
use crate::records::Bindable;
use crate::text;
use vstd::prelude::*;

verus! {

impl Bindable for AirwayRecord {
    open spec fn cell(&self, variation: Option<u64>, column: Seq<char>) -> Cell<Seq<char>> {
        if column == "area_code"@ {
            Cell::Text(self@.area_code)
        } else if column == "route_identifier"@ {
            Cell::Text(self@.route_identifier)
        } else if column == "seqno"@ {
            Cell::Integer(self.seqno)
        } else if column == "icao_code"@ {
            records::text_cell(self@.icao_code)
        } else if column == "waypoint_identifier"@ {
            Cell::Text(self@.waypoint_identifier)
        } else if column == "waypoint_latitude"@ {
            records::bits_cell(self.waypoint_latitude)
        } else if column == "waypoint_longitude"@ {
            records::bits_cell(self.waypoint_longitude)
        } else if column == "waypoint_description_code"@ {
            Cell::Text(self@.waypoint_description_code)
        } else if column == "route_type"@ {
            Cell::Text(self@.route_type)
        } else if column == "flightlevel"@ {
            Cell::Text(self@.flightlevel)
        } else if column == "direction_restriction"@ {
            records::text_cell(self@.direction_restriction)
        } else if column == "crusing_table_identifier"@ {
            records::text_cell(self@.crusing_table_identifier)
        } else if column == "minimum_altitude1"@ {
            records::integer_cell(self.minimum_altitude1)
        } else if column == "minimum_altitude2"@ {
            records::bits_cell(self.minimum_altitude2)
        } else if column == "maximum_altitude"@ {
            records::integer_cell(self.maximum_altitude)
        } else if column == "outbound_course"@ {
            Cell::Bits(self.outbound_course)
        } else if column == "inbound_course"@ {
            Cell::Bits(self.inbound_course)
        } else if column == "inbound_distance"@ {
            Cell::Bits(self.inbound_distance)
        } else if column == "id"@ {
            records::text_cell(airway_rows::not_blank(self@.id))
        } else {
            Cell::Null
        }
    }

    fn make_cell(&self, variation: Option<u64>, column: &str) -> (r: Cell) {
        if text::same(column, "area_code") {
            Cell::Text(self.area_code.clone())
        } else if text::same(column, "route_identifier") {
            Cell::Text(self.route_identifier.clone())
        } else if text::same(column, "seqno") {
            Cell::Integer(self.seqno)
        } else if text::same(column, "icao_code") {
            records::make_text_cell(&self.icao_code)
        } else if text::same(column, "waypoint_identifier") {
            Cell::Text(self.waypoint_identifier.clone())
        } else if text::same(column, "waypoint_latitude") {
            records::make_bits_cell(self.waypoint_latitude)
        } else if text::same(column, "waypoint_longitude") {
            records::make_bits_cell(self.waypoint_longitude)
        } else if text::same(column, "waypoint_description_code") {
            Cell::Text(self.waypoint_description_code.clone())
        } else if text::same(column, "route_type") {
            Cell::Text(self.route_type.clone())
        } else if text::same(column, "flightlevel") {
            Cell::Text(self.flightlevel.clone())
        } else if text::same(column, "direction_restriction") {
            records::make_text_cell(&self.direction_restriction)
        } else if text::same(column, "crusing_table_identifier") {
            records::make_text_cell(&self.crusing_table_identifier)
        } else if text::same(column, "minimum_altitude1") {
            records::make_integer_cell(self.minimum_altitude1)
        } else if text::same(column, "minimum_altitude2") {
            records::make_bits_cell(self.minimum_altitude2)
        } else if text::same(column, "maximum_altitude") {
            records::make_integer_cell(self.maximum_altitude)
        } else if text::same(column, "outbound_course") {
            Cell::Bits(self.outbound_course)
        } else if text::same(column, "inbound_course") {
            Cell::Bits(self.inbound_course)
        } else if text::same(column, "inbound_distance") {
            Cell::Bits(self.inbound_distance)
        } else if text::same(column, "id") {
            records::make_text_cell(&self.bound_id())
        } else {
            Cell::Null
        }
    }
}

/// The columns of the table of airways, in order.
pub open spec fn airway_columns() -> Seq<Seq<char>> {
    seq![
        "area_code"@,
        "route_identifier"@,
        "seqno"@,
        "icao_code"@,
        "waypoint_identifier"@,
        "waypoint_latitude"@,
        "waypoint_longitude"@,
        "waypoint_description_code"@,
        "route_type"@,
        "flightlevel"@,
        "direction_restriction"@,
        "crusing_table_identifier"@,
        "minimum_altitude1"@,
        "minimum_altitude2"@,
        "maximum_altitude"@,
        "outbound_course"@,
        "inbound_course"@,
        "inbound_distance"@,
        "id"@,
    ]
}

/// The columns of the table of airways, in order.
pub fn list_airway_columns() -> (r: Vec<String>)
    ensures
        text::views(r@) == airway_columns(),
{
    let r: Vec<String> = vec![
        text::copy("area_code"),
        text::copy("route_identifier"),
        text::copy("seqno"),
        text::copy("icao_code"),
        text::copy("waypoint_identifier"),
        text::copy("waypoint_latitude"),
        text::copy("waypoint_longitude"),
        text::copy("waypoint_description_code"),
        text::copy("route_type"),
        text::copy("flightlevel"),
        text::copy("direction_restriction"),
        text::copy("crusing_table_identifier"),
        text::copy("minimum_altitude1"),
        text::copy("minimum_altitude2"),
        text::copy("maximum_altitude"),
        text::copy("outbound_course"),
        text::copy("inbound_course"),
        text::copy("inbound_distance"),
        text::copy("id"),
    ];
    assert(text::views(r@) =~= airway_columns());
    r
}

/// The statement that creates the table of airways.
pub fn create_table_statement() -> (r: &'static str)
    ensures
        r@ == "CREATE TABLE IF NOT EXISTS tbl_enroute_airways (area_code TEXT(3), route_identifier TEXT(6), seqno INTEGER(4), icao_code TEXT(2), waypoint_identifier TEXT(5), waypoint_latitude DOUBLE(9), waypoint_longitude DOUBLE(10), waypoint_description_code TEXT(4), route_type TEXT(1), flightlevel TEXT(1), direction_restriction TEXT(1), crusing_table_identifier TEXT(2), minimum_altitude1 INTEGER(5), minimum_altitude2 INTEGER(5), maximum_altitude INTEGER(5), outbound_course DOUBLE(5), inbound_course DOUBLE(5), inbound_distance DOUBLE(5), id TEXT(15))"@,
{
    "CREATE TABLE IF NOT EXISTS tbl_enroute_airways (area_code TEXT(3), route_identifier TEXT(6), seqno INTEGER(4), icao_code TEXT(2), waypoint_identifier TEXT(5), waypoint_latitude DOUBLE(9), waypoint_longitude DOUBLE(10), waypoint_description_code TEXT(4), route_type TEXT(1), flightlevel TEXT(1), direction_restriction TEXT(1), crusing_table_identifier TEXT(2), minimum_altitude1 INTEGER(5), minimum_altitude2 INTEGER(5), maximum_altitude INTEGER(5), outbound_course DOUBLE(5), inbound_course DOUBLE(5), inbound_distance DOUBLE(5), id TEXT(15))"
}

/// The statement that creates the index over the routes and their order.
pub fn create_index_statement() -> (r: &'static str)
    ensures
        r@ == "CREATE INDEX IF NOT EXISTS idx_enroute_airways_route_seq ON tbl_enroute_airways(route_identifier, seqno)"@,
{
    "CREATE INDEX IF NOT EXISTS idx_enroute_airways_route_seq ON tbl_enroute_airways(route_identifier, seqno)"
}

/// How many routes one statement is about.
pub const ROUTE_BATCH: usize = 500;

/// How many rows are written together.
pub const INSERT_BATCH: usize = 2000;

/// The start of the query for the rows of routes.
pub open spec fn known_rows_head() -> Seq<char> {
    "SELECT "@ + db::joined(airway_columns(), ", "@)
        + " FROM tbl_enroute_airways WHERE route_identifier IN ("@
}

/// Builds the queries for the rows that the table has of some routes.
pub fn fetch_existing_airway_rows(routes: &Vec<String>) -> (out: Vec<BoundQuery>)
    ensures
        text::views(out@) == db::text_queries(
            known_rows_head(),
            ") ORDER BY route_identifier, seqno"@,
            text::views(routes@),
            ROUTE_BATCH as int,
        ),
{
    let mut head: String = text::copy("SELECT ");
    let list: String = db::join_texts(&list_airway_columns(), ", ");
    head.append(list.as_str());
    head.append(" FROM tbl_enroute_airways WHERE route_identifier IN (");
    db::list_text_queries(
        head.as_str(),
        ") ORDER BY route_identifier, seqno",
        routes,
        ROUTE_BATCH,
    )
}

/// Builds the statements that delete routes.
pub fn delete_routes(routes: &Vec<String>) -> (out: Vec<BoundQuery>)
    ensures
        text::views(out@) == db::text_queries(
            "DELETE FROM tbl_enroute_airways WHERE route_identifier IN ("@,
            ")"@,
            text::views(routes@),
            ROUTE_BATCH as int,
        ),
{
    db::list_text_queries(
        "DELETE FROM tbl_enroute_airways WHERE route_identifier IN (",
        ")",
        routes,
        ROUTE_BATCH,
    )
}

/// Builds the statement that inserts a row.
pub fn insert_airway_rows() -> (sql: String)
    ensures
        sql@ == records::fixed_insert("INSERT"@, "tbl_enroute_airways"@, airway_columns()),
{
    records::fixed_insert_sql("INSERT", "tbl_enroute_airways", &list_airway_columns())
}

/// Lays out the rows of airways for the table.
pub fn bind_airway_rows(rows: &Vec<AirwayRecord>) -> (out: Vec<Vec<Cell>>)
    ensures
        records::cell_rows(out@) == records::bound_rows(rows@, None, airway_columns()),
{
    records::bind_records(rows, None, &list_airway_columns())
}

/// Every column of the table holds what it is named for.
pub proof fn every_column_holds_what_it_is_named_for(row: AirwayRecord, variation: Option<u64>)
    ensures
        row.cell(variation, "area_code"@) == Cell::Text(row.area_code@),
        row.cell(variation, "route_identifier"@) == Cell::Text(row.route_identifier@),
        row.cell(variation, "seqno"@) == Cell::<Seq<char>>::Integer(row.seqno),
        row.cell(variation, "icao_code"@) == records::text_cell(text::opt(row.icao_code)),
        row.cell(variation, "waypoint_identifier"@) == Cell::Text(row.waypoint_identifier@),
        row.cell(variation, "waypoint_latitude"@) == records::bits_cell(row.waypoint_latitude),
        row.cell(variation, "waypoint_longitude"@) == records::bits_cell(row.waypoint_longitude),
        row.cell(variation, "waypoint_description_code"@) == Cell::Text(row.waypoint_description_code@),
        row.cell(variation, "route_type"@) == Cell::Text(row.route_type@),
        row.cell(variation, "flightlevel"@) == Cell::Text(row.flightlevel@),
        row.cell(variation, "direction_restriction"@) == records::text_cell(text::opt(row.direction_restriction)),
        row.cell(variation, "crusing_table_identifier"@) == records::text_cell(text::opt(row.crusing_table_identifier)),
        row.cell(variation, "minimum_altitude1"@) == records::integer_cell(row.minimum_altitude1),
        row.cell(variation, "minimum_altitude2"@) == records::bits_cell(row.minimum_altitude2),
        row.cell(variation, "maximum_altitude"@) == records::integer_cell(row.maximum_altitude),
        row.cell(variation, "outbound_course"@) == Cell::<Seq<char>>::Bits(row.outbound_course),
        row.cell(variation, "inbound_course"@) == Cell::<Seq<char>>::Bits(row.inbound_course),
        row.cell(variation, "inbound_distance"@) == Cell::<Seq<char>>::Bits(row.inbound_distance),
        row.cell(variation, "id"@) == records::text_cell(airway_rows::not_blank(text::opt(row.id))),
{
    reveal_strlit("area_code");
    assert("area_code"@.len() == 9);
    reveal_strlit("route_identifier");
    assert("route_identifier"@.len() == 16);
    reveal_strlit("seqno");
    assert("seqno"@.len() == 5);
    reveal_strlit("icao_code");
    assert("icao_code"@.len() == 9);
    reveal_strlit("waypoint_identifier");
    assert("waypoint_identifier"@.len() == 19);
    reveal_strlit("waypoint_latitude");
    assert("waypoint_latitude"@.len() == 17);
    reveal_strlit("waypoint_longitude");
    assert("waypoint_longitude"@.len() == 18);
    reveal_strlit("waypoint_description_code");
    assert("waypoint_description_code"@.len() == 25);
    reveal_strlit("route_type");
    assert("route_type"@.len() == 10);
    reveal_strlit("flightlevel");
    assert("flightlevel"@.len() == 11);
    reveal_strlit("direction_restriction");
    assert("direction_restriction"@.len() == 21);
    reveal_strlit("crusing_table_identifier");
    assert("crusing_table_identifier"@.len() == 24);
    reveal_strlit("minimum_altitude1");
    assert("minimum_altitude1"@.len() == 17);
    reveal_strlit("minimum_altitude2");
    assert("minimum_altitude2"@.len() == 17);
    reveal_strlit("maximum_altitude");
    assert("maximum_altitude"@.len() == 16);
    reveal_strlit("outbound_course");
    assert("outbound_course"@.len() == 15);
    reveal_strlit("inbound_course");
    assert("inbound_course"@.len() == 14);
    reveal_strlit("inbound_distance");
    assert("inbound_distance"@.len() == 16);
    reveal_strlit("id");
    assert("id"@.len() == 2);
    assert("area_code"@[0] != "icao_code"@[0]);
    assert("waypoint_latitude"@[0] != "minimum_altitude1"@[0]);
    assert("waypoint_latitude"@[0] != "minimum_altitude2"@[0]);
    assert("minimum_altitude1"@[16] != "minimum_altitude2"@[16]);
    assert("route_identifier"@[0] != "maximum_altitude"@[0]);
    assert("route_identifier"@[0] != "inbound_distance"@[0]);
    assert("maximum_altitude"@[0] != "inbound_distance"@[0]);
}

/// No column of the table is left out, and none is written twice.
pub proof fn every_column_is_written(row: AirwayRecord, variation: Option<u64>)
    ensures
        airway_columns().len() == 19,
        airway_columns().contains("area_code"@),
        airway_columns().contains("route_identifier"@),
        airway_columns().contains("seqno"@),
        airway_columns().contains("icao_code"@),
        airway_columns().contains("waypoint_identifier"@),
        airway_columns().contains("waypoint_latitude"@),
        airway_columns().contains("waypoint_longitude"@),
        airway_columns().contains("waypoint_description_code"@),
        airway_columns().contains("route_type"@),
        airway_columns().contains("flightlevel"@),
        airway_columns().contains("direction_restriction"@),
        airway_columns().contains("crusing_table_identifier"@),
        airway_columns().contains("minimum_altitude1"@),
        airway_columns().contains("minimum_altitude2"@),
        airway_columns().contains("maximum_altitude"@),
        airway_columns().contains("outbound_course"@),
        airway_columns().contains("inbound_course"@),
        airway_columns().contains("inbound_distance"@),
        airway_columns().contains("id"@),
        forall|i: int|
            0 <= i < airway_columns().len() ==> #[trigger] records::bound_row(row, variation, airway_columns())[i]
                == row.cell(variation, airway_columns()[i]),
{
    assert(airway_columns()[0] == "area_code"@);
    assert(airway_columns()[1] == "route_identifier"@);
    assert(airway_columns()[2] == "seqno"@);
    assert(airway_columns()[3] == "icao_code"@);
    assert(airway_columns()[4] == "waypoint_identifier"@);
    assert(airway_columns()[5] == "waypoint_latitude"@);
    assert(airway_columns()[6] == "waypoint_longitude"@);
    assert(airway_columns()[7] == "waypoint_description_code"@);
    assert(airway_columns()[8] == "route_type"@);
    assert(airway_columns()[9] == "flightlevel"@);
    assert(airway_columns()[10] == "direction_restriction"@);
    assert(airway_columns()[11] == "crusing_table_identifier"@);
    assert(airway_columns()[12] == "minimum_altitude1"@);
    assert(airway_columns()[13] == "minimum_altitude2"@);
    assert(airway_columns()[14] == "maximum_altitude"@);
    assert(airway_columns()[15] == "outbound_course"@);
    assert(airway_columns()[16] == "inbound_course"@);
    assert(airway_columns()[17] == "inbound_distance"@);
    assert(airway_columns()[18] == "id"@);
}

/// Known rows are asked for with all their columns, by route.
pub proof fn known_rows_are_asked_for_by_route()
    ensures
        known_rows_head() == "SELECT "@ + db::joined(airway_columns(), ", "@)
            + " FROM tbl_enroute_airways WHERE route_identifier IN ("@,
{
}

} // verus!
