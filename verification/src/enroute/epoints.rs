//! Enroute waypoints: leaving out known ones and laying out the rest for the table.

use crate::db;
use crate::db::{BoundQuery, Cell};
use crate::keyed;
use crate::keyed::RowSet;
use crate::parsers::EnrouteWaypointRow;
use crate::records;
use crate::records::{Bindable, Record};
use crate::regions;
use crate::regions::Dataset;
use crate::text;
use vstd::prelude::*;

verus! {

impl Record for EnrouteWaypointRow {
    open spec fn key(&self) -> Seq<Seq<char>> {
        seq![self.icao_code@, self.waypoint_identifier@]
    }

    fn key_row(&self) -> (r: Vec<String>) {
        let r: Vec<String> = vec![self.icao_code.clone(), self.waypoint_identifier.clone()];
        assert(text::views(r@) =~= self.key());
        r
    }
}

/// The table of enroute waypoints.
pub open spec fn waypoint_table(dataset: Dataset) -> Seq<char> {
    match dataset {
        Dataset::Pmdg => "tbl_enroute_waypoints"@,
        Dataset::IniBuilds => "tbl_ea_enroute_waypoints"@,
    }
}

/// The table of enroute waypoints.
pub fn waypoint_table_name(dataset: Dataset) -> (r: &'static str)
    ensures
        r@ == waypoint_table(dataset),
{
    match dataset {
        Dataset::Pmdg => "tbl_enroute_waypoints",
        Dataset::IniBuilds => "tbl_ea_enroute_waypoints",
    }
}

/// The name of the table as it stands in queries for known waypoints.
pub open spec fn queried_table(dataset: Dataset) -> Seq<char> {
    match dataset {
        Dataset::Pmdg => db::quoted_identifier(waypoint_table(dataset)),
        Dataset::IniBuilds => waypoint_table(dataset),
    }
}

/// The start of the query for known waypoints.
pub open spec fn known_query_head(dataset: Dataset) -> Seq<char> {
    "SELECT icao_code, waypoint_identifier FROM "@ + queried_table(dataset)
        + " WHERE (icao_code, waypoint_identifier) IN ("@
}

/// The number of waypoints that one query is meant to ask for.
pub const QUERY_BATCH: usize = 500;

/// The queries for those of the waypoints that the table has.
pub fn fetch_existing_queries(dataset: Dataset, rows: &Vec<EnrouteWaypointRow>) -> (out: Vec<
    BoundQuery,
>)
    ensures
        text::views(out@) == db::row_queries(
            known_query_head(dataset),
            "(?, ?)"@,
            keyed::distinct_rows(records::keys_of(rows@)),
            db::batch_limit(QUERY_BATCH as int, 2),
        ),
{
    let keys: RowSet = records::list_keys(rows);
    let mut head: String = text::copy("SELECT icao_code, waypoint_identifier FROM ");
    match dataset {
        Dataset::Pmdg => {
            let quoted: String = db::quote_sqlite_identifier(waypoint_table_name(dataset));
            head.append(quoted.as_str());
        },
        Dataset::IniBuilds => {
            head.append(waypoint_table_name(dataset));
        },
    }
    head.append(" WHERE (icao_code, waypoint_identifier) IN (");
    db::list_row_queries(
        head.as_str(),
        "(?, ?)",
        keys.rows(),
        db::pair_query_batch_size(QUERY_BATCH),
    )
}

/// The statement that creates the index over the keys of a table.
pub open spec fn index_statement(table: Seq<char>) -> Seq<char> {
    "CREATE INDEX IF NOT EXISTS "@ + db::quoted_identifier(
        "idx_"@ + table + "_icao_identifier"@,
    ) + " ON "@ + db::quoted_identifier(table) + "(icao_code, waypoint_identifier)"@
}

/// Builds the statement that creates the index over the keys of a table.
pub fn ensure_enroute_waypoints_index(table: &str) -> (sql: String)
    ensures
        sql@ == index_statement(table@),
{
    let mut name: String = text::copy("idx_");
    name.append(table);
    name.append("_icao_identifier");
    let quoted: String = db::quote_sqlite_identifier(name.as_str());
    let mut sql: String = text::copy("CREATE INDEX IF NOT EXISTS ");
    sql.append(quoted.as_str());
    sql.append(" ON ");
    let quoted_table: String = db::quote_sqlite_identifier(table);
    sql.append(quoted_table.as_str());
    sql.append("(icao_code, waypoint_identifier)");
    sql
}

/// The statement that creates the index over the keys of the waypoints of a data set.
pub fn create_index_statement(dataset: Dataset) -> (sql: String)
    ensures
        sql@ == (match dataset {
            Dataset::Pmdg => index_statement(waypoint_table(dataset)),
            Dataset::IniBuilds
                => "CREATE INDEX IF NOT EXISTS idx_waypoints_icao_identifier ON tbl_ea_enroute_waypoints(icao_code, waypoint_identifier)"@,
        }),
{
    match dataset {
        Dataset::Pmdg => ensure_enroute_waypoints_index(waypoint_table_name(dataset)),
        Dataset::IniBuilds => text::copy(
            "CREATE INDEX IF NOT EXISTS idx_waypoints_icao_identifier ON tbl_ea_enroute_waypoints(icao_code, waypoint_identifier)",
        ),
    }
}

/// A waypoint as it is written to the table.
#[verifier::ext_equal]
pub struct EnrouteWaypointInsert<T = String> {
    pub area_code: T,
    pub continent: T,
    pub country: T,
    pub datum_code: T,
    pub icao_code: T,
    pub waypoint_identifier: T,
    pub waypoint_latitude: T,
    pub waypoint_longitude: T,
    pub waypoint_name: T,
    pub waypoint_type: T,
    pub waypoint_usage: T,
    pub id: T,
}

impl View for EnrouteWaypointInsert {
    type V = EnrouteWaypointInsert<Seq<char>>;

    open spec fn view(&self) -> Self::V {
        EnrouteWaypointInsert {
            area_code: self.area_code@,
            continent: self.continent@,
            country: self.country@,
            datum_code: self.datum_code@,
            icao_code: self.icao_code@,
            waypoint_identifier: self.waypoint_identifier@,
            waypoint_latitude: self.waypoint_latitude@,
            waypoint_longitude: self.waypoint_longitude@,
            waypoint_name: self.waypoint_name@,
            waypoint_type: self.waypoint_type@,
            waypoint_usage: self.waypoint_usage@,
            id: self.id@,
        }
    }
}

impl Bindable for EnrouteWaypointInsert {
    open spec fn cell(&self, variation: Option<u64>, column: Seq<char>) -> Cell<Seq<char>> {
        if column == "area_code"@ {
            Cell::Text(self@.area_code)
        } else if column == "continent"@ {
            Cell::Text(self@.continent)
        } else if column == "country"@ {
            Cell::Text(self@.country)
        } else if column == "datum_code"@ {
            Cell::Text(self@.datum_code)
        } else if column == "icao_code"@ {
            Cell::Text(self@.icao_code)
        } else if column == "magnetic_variation"@ {
            records::bits_cell(variation)
        } else if column == "waypoint_identifier"@ {
            Cell::Text(self@.waypoint_identifier)
        } else if column == "waypoint_latitude"@ {
            Cell::Literal(self@.waypoint_latitude)
        } else if column == "waypoint_longitude"@ {
            Cell::Literal(self@.waypoint_longitude)
        } else if column == "waypoint_name"@ {
            Cell::Text(self@.waypoint_name)
        } else if column == "waypoint_type"@ {
            Cell::Text(self@.waypoint_type)
        } else if column == "waypoint_usage"@ {
            Cell::Text(self@.waypoint_usage)
        } else if column == "id"@ {
            Cell::Text(self@.id)
        } else {
            Cell::Null
        }
    }

    fn make_cell(&self, variation: Option<u64>, column: &str) -> (r: Cell) {
        if text::same(column, "area_code") {
            Cell::Text(self.area_code.clone())
        } else if text::same(column, "continent") {
            Cell::Text(self.continent.clone())
        } else if text::same(column, "country") {
            Cell::Text(self.country.clone())
        } else if text::same(column, "datum_code") {
            Cell::Text(self.datum_code.clone())
        } else if text::same(column, "icao_code") {
            Cell::Text(self.icao_code.clone())
        } else if text::same(column, "magnetic_variation") {
            records::make_bits_cell(variation)
        } else if text::same(column, "waypoint_identifier") {
            Cell::Text(self.waypoint_identifier.clone())
        } else if text::same(column, "waypoint_latitude") {
            Cell::Literal(self.waypoint_latitude.clone())
        } else if text::same(column, "waypoint_longitude") {
            Cell::Literal(self.waypoint_longitude.clone())
        } else if text::same(column, "waypoint_name") {
            Cell::Text(self.waypoint_name.clone())
        } else if text::same(column, "waypoint_type") {
            Cell::Text(self.waypoint_type.clone())
        } else if text::same(column, "waypoint_usage") {
            Cell::Text(self.waypoint_usage.clone())
        } else if text::same(column, "id") {
            Cell::Text(self.id.clone())
        } else {
            Cell::Null
        }
    }
}

/// The columns of a table that always has the same.
pub open spec fn fixed_columns() -> Seq<Seq<char>> {
    seq![
        "area_code"@,
        "continent"@,
        "country"@,
        "datum_code"@,
        "icao_code"@,
        "magnetic_variation"@,
        "waypoint_identifier"@,
        "waypoint_latitude"@,
        "waypoint_longitude"@,
        "waypoint_name"@,
        "waypoint_type"@,
        "waypoint_usage"@,
    ]
}

/// The columns of a table that always has the same.
pub fn list_fixed_columns() -> (r: Vec<String>)
    ensures
        text::views(r@) == fixed_columns(),
{
    let r: Vec<String> = vec![
        text::copy("area_code"),
        text::copy("continent"),
        text::copy("country"),
        text::copy("datum_code"),
        text::copy("icao_code"),
        text::copy("magnetic_variation"),
        text::copy("waypoint_identifier"),
        text::copy("waypoint_latitude"),
        text::copy("waypoint_longitude"),
        text::copy("waypoint_name"),
        text::copy("waypoint_type"),
        text::copy("waypoint_usage"),
    ];
    assert(text::views(r@) =~= fixed_columns());
    r
}

/// The waypoint that is written for a record.
pub open spec fn waypoint_insert(
    dataset: Dataset,
    row: EnrouteWaypointRow<Seq<char>>,
) -> EnrouteWaypointInsert<Seq<char>> {
    EnrouteWaypointInsert {
        area_code: match dataset {
            Dataset::Pmdg => regions::waypoint_area(row.icao_code),
            Dataset::IniBuilds => "EEU"@,
        },
        continent: "ASIA"@,
        country: "CHINA"@,
        datum_code: "WGE"@,
        icao_code: row.icao_code,
        waypoint_identifier: row.waypoint_identifier,
        waypoint_latitude: row.latitude,
        waypoint_longitude: row.longitude,
        waypoint_name: row.waypoint_identifier,
        waypoint_type: row.waypoint_type,
        waypoint_usage: "RB"@,
        id: row.icao_code + row.waypoint_identifier,
    }
}

fn make_insert(dataset: Dataset, row: &EnrouteWaypointRow) -> (r: EnrouteWaypointInsert)
    ensures
        r@ == waypoint_insert(dataset, row@),
{
    let mut id: String = row.icao_code.clone();
    id.append(row.waypoint_identifier.as_str());
    EnrouteWaypointInsert {
        area_code: match dataset {
            Dataset::Pmdg => text::copy(regions::waypoint_area_code(row.icao_code.as_str())),
            Dataset::IniBuilds => text::copy("EEU"),
        },
        continent: text::copy("ASIA"),
        country: text::copy("CHINA"),
        datum_code: text::copy("WGE"),
        icao_code: row.icao_code.clone(),
        waypoint_identifier: row.waypoint_identifier.clone(),
        waypoint_latitude: row.latitude.clone(),
        waypoint_longitude: row.longitude.clone(),
        waypoint_name: row.waypoint_identifier.clone(),
        waypoint_type: row.waypoint_type.clone(),
        waypoint_usage: text::copy("RB"),
        id,
    }
}

/// The waypoints that are written: those of the records that the table does not have.
pub open spec fn new_waypoints(
    dataset: Dataset,
    rows: Seq<EnrouteWaypointRow>,
    existing: Seq<Seq<Seq<char>>>,
) -> Seq<EnrouteWaypointInsert<Seq<char>>> {
    rows.filter(records::absent(existing)).map_values(
        |row: EnrouteWaypointRow| waypoint_insert(dataset, row@),
    )
}

/// Lays out the waypoints that the table does not have.
pub fn process_enroute_waypoints_to_db(
    dataset: Dataset,
    rows: Vec<EnrouteWaypointRow>,
    existing: &RowSet,
) -> (out: Vec<EnrouteWaypointInsert>)
    requires
        existing.wf(),
    ensures
        text::views(out@) == new_waypoints(dataset, rows@, existing@),
{
    let ghost goal = new_waypoints(dataset, rows@, existing@);
    let fresh: Vec<EnrouteWaypointRow> = records::retain_absent(rows, existing);
    let mut out: Vec<EnrouteWaypointInsert> = Vec::new();
    assert(text::views(out@) =~= goal.take(0));
    for i in 0..fresh.len()
        invariant
            goal == fresh@.map_values(|row: EnrouteWaypointRow| waypoint_insert(dataset, row@)),
            text::views(out@) == goal.take(i as int),
    {
        let row: EnrouteWaypointInsert = make_insert(dataset, &fresh[i]);
        proof {
            text::lemma_views_push(out@, row);
            assert(goal.take(i + 1) =~= goal.take(i as int).push(row@));
        }
        out.push(row);
    }
    assert(goal.take(fresh@.len() as int) == goal);
    out
}

/// The number of magnetic variations differs from the number of waypoints.
#[derive(Clone, Copy, PartialEq, Eq, Debug, Structural)]
pub struct LengthMismatch;

/// Lays out the values of waypoints for the columns of the table. Where variations are given, they
/// have to be as many as the waypoints, unless there are none to write.
pub fn insert_values(
    rows: &Vec<EnrouteWaypointInsert>,
    variations: Option<&Vec<u64>>,
    columns: &Vec<String>,
) -> (r: Result<Vec<Vec<Cell>>, LengthMismatch>)
    ensures
        match r {
            Ok(values) => {
                &&& rows@.len() == 0 || (variations matches Some(v) ==> v@.len() == rows@.len())
                &&& records::cell_rows(values@) == records::bound_rows(
                    rows@,
                    records::variations_view(variations),
                    text::views(columns@),
                )
            },
            Err(_) => rows@.len() > 0 && (variations matches Some(v) && v@.len() != rows@.len()),
        },
{
    if rows.len() > 0 {
        match variations {
            Some(values) => {
                if values.len() != rows.len() {
                    return Err(LengthMismatch);
                }
            },
            None => {},
        }
    }
    Ok(records::bind_records(rows, variations, columns))
}

/// The statement that creates the table of en-route waypoints.
pub fn create_table_statement(dataset: Dataset) -> (r: &'static str)
    ensures
        r@ == (match dataset {
            Dataset::Pmdg
                => "CREATE TABLE IF NOT EXISTS tbl_enroute_waypoints (area_code TEXT, icao_code TEXT, waypoint_identifier TEXT, waypoint_name TEXT, waypoint_type TEXT, waypoint_usage TEXT, waypoint_latitude REAL, waypoint_longitude REAL, id TEXT)"@,
            Dataset::IniBuilds
                => "CREATE TABLE IF NOT EXISTS tbl_ea_enroute_waypoints (area_code TEXT, continent TEXT, country TEXT, datum_code TEXT, icao_code TEXT, magnetic_variation REAL, waypoint_identifier TEXT, waypoint_latitude REAL, waypoint_longitude REAL, waypoint_name TEXT, waypoint_type TEXT, waypoint_usage TEXT)"@,
        }),
{
    match dataset {
        Dataset::Pmdg
            => "CREATE TABLE IF NOT EXISTS tbl_enroute_waypoints (area_code TEXT, icao_code TEXT, waypoint_identifier TEXT, waypoint_name TEXT, waypoint_type TEXT, waypoint_usage TEXT, waypoint_latitude REAL, waypoint_longitude REAL, id TEXT)",
        Dataset::IniBuilds
            => "CREATE TABLE IF NOT EXISTS tbl_ea_enroute_waypoints (area_code TEXT, continent TEXT, country TEXT, datum_code TEXT, icao_code TEXT, magnetic_variation REAL, waypoint_identifier TEXT, waypoint_latitude REAL, waypoint_longitude REAL, waypoint_name TEXT, waypoint_type TEXT, waypoint_usage TEXT)",
    }
}

/// The statement that inserts a waypoint with the given columns.
pub open spec fn insert_statement(dataset: Dataset, columns: Seq<Seq<char>>) -> Seq<char> {
    match dataset {
        Dataset::Pmdg => db::insert_statement(waypoint_table(dataset), columns),
        Dataset::IniBuilds => records::fixed_insert("INSERT"@, waypoint_table(dataset), columns),
    }
}

/// Builds the statement that inserts a waypoint with the given columns.
pub fn build_insert_sql(dataset: Dataset, columns: &Vec<String>) -> (sql: String)
    ensures
        sql@ == insert_statement(dataset, text::views(columns@)),
{
    match dataset {
        Dataset::Pmdg => db::build_insert_sql(waypoint_table_name(dataset), columns),
        Dataset::IniBuilds => records::fixed_insert_sql(
            "INSERT",
            waypoint_table_name(dataset),
            columns,
        ),
    }
}

/// Once the new waypoints have been written, nothing is left to write for the same file.
pub proof fn rerun_writes_nothing(
    dataset: Dataset,
    rows: Seq<EnrouteWaypointRow>,
    existing: Seq<Seq<Seq<char>>>,
    after: Seq<Seq<Seq<char>>>,
)
    requires
        forall|key: Seq<Seq<char>>| #[trigger] existing.contains(key) ==> after.contains(key),
        forall|i: int|
            0 <= i < rows.filter(records::absent(existing)).len() ==> after.contains(
                (#[trigger] rows.filter(records::absent(existing))[i]).key(),
            ),
    ensures
        new_waypoints(dataset, rows, after).len() == 0,
{
    records::filtered_rerun_is_empty(rows, existing, after);
}

/// Every column of the table holds what it is named for.
pub proof fn every_column_holds_what_it_is_named_for(row: EnrouteWaypointInsert, variation: Option<u64>)
    ensures
        row.cell(variation, "area_code"@) == Cell::Text(row.area_code@),
        row.cell(variation, "continent"@) == Cell::Text(row.continent@),
        row.cell(variation, "country"@) == Cell::Text(row.country@),
        row.cell(variation, "datum_code"@) == Cell::Text(row.datum_code@),
        row.cell(variation, "icao_code"@) == Cell::Text(row.icao_code@),
        row.cell(variation, "magnetic_variation"@) == records::bits_cell(variation),
        row.cell(variation, "waypoint_identifier"@) == Cell::Text(row.waypoint_identifier@),
        row.cell(variation, "waypoint_latitude"@) == Cell::Literal(row.waypoint_latitude@),
        row.cell(variation, "waypoint_longitude"@) == Cell::Literal(row.waypoint_longitude@),
        row.cell(variation, "waypoint_name"@) == Cell::Text(row.waypoint_name@),
        row.cell(variation, "waypoint_type"@) == Cell::Text(row.waypoint_type@),
        row.cell(variation, "waypoint_usage"@) == Cell::Text(row.waypoint_usage@),
        row.cell(variation, "id"@) == Cell::Text(row.id@),
{
    reveal_strlit("area_code");
    assert("area_code"@.len() == 9);
    reveal_strlit("continent");
    assert("continent"@.len() == 9);
    reveal_strlit("country");
    assert("country"@.len() == 7);
    reveal_strlit("datum_code");
    assert("datum_code"@.len() == 10);
    reveal_strlit("icao_code");
    assert("icao_code"@.len() == 9);
    reveal_strlit("magnetic_variation");
    assert("magnetic_variation"@.len() == 18);
    reveal_strlit("waypoint_identifier");
    assert("waypoint_identifier"@.len() == 19);
    reveal_strlit("waypoint_latitude");
    assert("waypoint_latitude"@.len() == 17);
    reveal_strlit("waypoint_longitude");
    assert("waypoint_longitude"@.len() == 18);
    reveal_strlit("waypoint_name");
    assert("waypoint_name"@.len() == 13);
    reveal_strlit("waypoint_type");
    assert("waypoint_type"@.len() == 13);
    reveal_strlit("waypoint_usage");
    assert("waypoint_usage"@.len() == 14);
    reveal_strlit("id");
    assert("id"@.len() == 2);
    assert("area_code"@[0] != "continent"@[0]);
    assert("area_code"@[0] != "icao_code"@[0]);
    assert("continent"@[0] != "icao_code"@[0]);
    assert("magnetic_variation"@[0] != "waypoint_longitude"@[0]);
    assert("waypoint_name"@[9] != "waypoint_type"@[9]);
}

/// No column of the table is left out, and none is written twice.
pub proof fn every_column_is_written(row: EnrouteWaypointInsert, variation: Option<u64>)
    ensures
        fixed_columns().len() == 12,
        fixed_columns().contains("area_code"@),
        fixed_columns().contains("continent"@),
        fixed_columns().contains("country"@),
        fixed_columns().contains("datum_code"@),
        fixed_columns().contains("icao_code"@),
        fixed_columns().contains("magnetic_variation"@),
        fixed_columns().contains("waypoint_identifier"@),
        fixed_columns().contains("waypoint_latitude"@),
        fixed_columns().contains("waypoint_longitude"@),
        fixed_columns().contains("waypoint_name"@),
        fixed_columns().contains("waypoint_type"@),
        fixed_columns().contains("waypoint_usage"@),
        forall|i: int|
            0 <= i < fixed_columns().len() ==> #[trigger] records::bound_row(row, variation, fixed_columns())[i]
                == row.cell(variation, fixed_columns()[i]),
{
    assert(fixed_columns()[0] == "area_code"@);
    assert(fixed_columns()[1] == "continent"@);
    assert(fixed_columns()[2] == "country"@);
    assert(fixed_columns()[3] == "datum_code"@);
    assert(fixed_columns()[4] == "icao_code"@);
    assert(fixed_columns()[5] == "magnetic_variation"@);
    assert(fixed_columns()[6] == "waypoint_identifier"@);
    assert(fixed_columns()[7] == "waypoint_latitude"@);
    assert(fixed_columns()[8] == "waypoint_longitude"@);
    assert(fixed_columns()[9] == "waypoint_name"@);
    assert(fixed_columns()[10] == "waypoint_type"@);
    assert(fixed_columns()[11] == "waypoint_usage"@);
}

/// A waypoint is written with what was read of it, under an identifier made of its ICAO code and
/// its own; both datasets know other areas.
pub proof fn a_waypoint_is_written_as_it_was_read(dataset: Dataset, row: EnrouteWaypointRow)
    ensures
        ({
            let written = waypoint_insert(dataset, row@);
            &&& dataset == Dataset::Pmdg && (row.icao_code@ == "VH"@ || row.icao_code@ == "VM"@)
                ==> written.area_code == "PAC"@
            &&& dataset == Dataset::IniBuilds || row.icao_code@ != "VH"@ && row.icao_code@ != "VM"@
                ==> written.area_code == "EEU"@
            &&& written.continent == "ASIA"@
            &&& written.country == "CHINA"@
            &&& written.datum_code == "WGE"@
            &&& written.waypoint_usage == "RB"@
            &&& written.icao_code == row.icao_code@
            &&& written.waypoint_identifier == row.waypoint_identifier@
            &&& written.waypoint_latitude == row.latitude@
            &&& written.waypoint_longitude == row.longitude@
            &&& written.waypoint_name == row.waypoint_identifier@
            &&& written.waypoint_type == row.waypoint_type@
            &&& written.id == row.icao_code@ + row.waypoint_identifier@
        }),
{
}

/// Just the waypoints are written whose ICAO code and identifier the table does not have together.
pub proof fn just_the_unknown_waypoints_are_written(
    dataset: Dataset,
    rows: Seq<EnrouteWaypointRow>,
    existing: Seq<Seq<Seq<char>>>,
    written: EnrouteWaypointInsert<Seq<char>>,
)
    ensures
        new_waypoints(dataset, rows, existing).contains(written) <==> exists|i: int|
            0 <= i < rows.len() && !existing.contains(seq![(#[trigger] rows[i]).icao_code@, rows[i].waypoint_identifier@])
                && waypoint_insert(dataset, rows[i]@) == written,
{
    broadcast use vstd::seq_lib::group_filter_ensures;

    let keep = records::absent::<EnrouteWaypointRow>(existing);
    let kept = rows.filter(keep);
    let all = new_waypoints(dataset, rows, existing);
    if all.contains(written) {
        let k = choose|k: int| 0 <= k < all.len() && all[k] == written;
        assert(keep(kept[k]));
        assert(kept.contains(kept[k]));
        rows.lemma_filter_contains_rev(keep, kept[k]);
        let i = choose|i: int| 0 <= i < rows.len() && rows[i] == kept[k];
        assert(!existing.contains(rows[i].key()));
    }
    if exists|i: int|
        0 <= i < rows.len() && !existing.contains(seq![(#[trigger] rows[i]).icao_code@, rows[i].waypoint_identifier@])
            && waypoint_insert(dataset, rows[i]@) == written {
        let i = choose|i: int|
            0 <= i < rows.len() && !existing.contains(seq![(#[trigger] rows[i]).icao_code@, rows[i].waypoint_identifier@])
                && waypoint_insert(dataset, rows[i]@) == written;
        assert(keep(rows[i]));
        assert(kept.contains(rows[i]));
        let k = choose|k: int| 0 <= k < kept.len() && kept[k] == rows[i];
        assert(all[k] == written);
    }
}

/// Known waypoints are asked for by ICAO code and identifier, in the order of their keys, from the
/// table of the dataset; new ones are written to the same table, which is indexed by the same
/// columns.
pub proof fn known_rows_are_asked_for_by_their_keys(table: Seq<char>, columns: Seq<Seq<char>>)
    ensures
        known_query_head(Dataset::Pmdg) == "SELECT icao_code, waypoint_identifier FROM "@
            + db::quoted_identifier("tbl_enroute_waypoints"@)
            + " WHERE (icao_code, waypoint_identifier) IN ("@,
        known_query_head(Dataset::IniBuilds) == "SELECT icao_code, waypoint_identifier FROM "@
            + "tbl_ea_enroute_waypoints"@ + " WHERE (icao_code, waypoint_identifier) IN ("@,
        insert_statement(Dataset::Pmdg, columns) == db::insert_statement(
            "tbl_enroute_waypoints"@,
            columns,
        ),
        insert_statement(Dataset::IniBuilds, columns) == records::fixed_insert(
            "INSERT"@,
            "tbl_ea_enroute_waypoints"@,
            columns,
        ),
        index_statement(table) == "CREATE INDEX IF NOT EXISTS "@ + db::quoted_identifier(
            "idx_"@ + table + "_icao_identifier"@,
        ) + " ON "@ + db::quoted_identifier(table) + "(icao_code, waypoint_identifier)"@,
{
}

/// Every field of an `EnrouteWaypointInsert` is seen under its own name.
pub proof fn every_field_of_enroute_waypoint_insert_is_seen(it: EnrouteWaypointInsert)
    ensures
        it@.area_code == it.area_code@,
        it@.continent == it.continent@,
        it@.country == it.country@,
        it@.datum_code == it.datum_code@,
        it@.icao_code == it.icao_code@,
        it@.waypoint_identifier == it.waypoint_identifier@,
        it@.waypoint_latitude == it.waypoint_latitude@,
        it@.waypoint_longitude == it.waypoint_longitude@,
        it@.waypoint_name == it.waypoint_name@,
        it@.waypoint_type == it.waypoint_type@,
        it@.waypoint_usage == it.waypoint_usage@,
        it@.id == it.id@,
{
}

} // verus!
