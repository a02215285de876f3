//! Enroute beacons: leaving out known ones and laying out the rest for the table.

use crate::db;
use crate::db::{BoundQuery, Cell};
use crate::keyed;
use crate::keyed::RowSet;
use crate::parsers::NdbNavRow;
use crate::records;
use crate::records::{Bindable, Record};
use crate::regions;
use crate::regions::Dataset;
use crate::text;
use vstd::prelude::*;

verus! {

impl Record for NdbNavRow {
    open spec fn key(&self) -> Seq<Seq<char>> {
        seq![self.navaid_identifier@, self.icao_code@]
    }

    fn key_row(&self) -> (r: Vec<String>) {
        let r: Vec<String> = vec![self.navaid_identifier.clone(), self.icao_code.clone()];
        assert(text::views(r@) =~= self.key());
        r
    }
}

/// The start of the query for known beacons.
pub open spec fn known_query_head(dataset: Dataset) -> Seq<char> {
    match dataset {
        Dataset::Pmdg => "SELECT ndb_identifier, icao_code FROM "@ + db::quoted_identifier(
            "tbl_enroute_ndbnavaids"@,
        ) + " WHERE (ndb_identifier, icao_code) IN ("@,
        Dataset::IniBuilds
            => "SELECT navaid_identifier, icao_code FROM tbl_db_enroute_ndbnavaids WHERE (navaid_identifier, icao_code) IN ("@,
    }
}

/// The number of beacons that one query is meant to ask for.
pub const QUERY_BATCH: usize = 500;

/// The queries for those of the beacons that the table has.
pub fn fetch_existing_queries(dataset: Dataset, rows: &Vec<NdbNavRow>) -> (out: Vec<BoundQuery>)
    ensures
        text::views(out@) == db::row_queries(
            known_query_head(dataset),
            "(?, ?)"@,
            keyed::distinct_rows(records::keys_of(rows@)),
            db::batch_limit(QUERY_BATCH as int, 2),
        ),
{
    let keys: RowSet = records::list_keys(rows);
    let head: String = match dataset {
        Dataset::Pmdg => {
            let mut head: String = text::copy("SELECT ndb_identifier, icao_code FROM ");
            let quoted: String = db::quote_sqlite_identifier("tbl_enroute_ndbnavaids");
            head.append(quoted.as_str());
            head.append(" WHERE (ndb_identifier, icao_code) IN (");
            head
        },
        Dataset::IniBuilds => text::copy(
            "SELECT navaid_identifier, icao_code FROM tbl_db_enroute_ndbnavaids WHERE (navaid_identifier, icao_code) IN (",
        ),
    };
    db::list_row_queries(
        head.as_str(),
        "(?, ?)",
        keys.rows(),
        db::pair_query_batch_size(QUERY_BATCH),
    )
}

/// A beacon as it is written to the table.
#[verifier::ext_equal]
pub struct NdbInsertRow<T = String> {
    pub area_code: T,
    pub continent: T,
    pub country: T,
    pub datum_code: T,
    pub icao_code: T,
    pub navaid_class: T,
    pub navaid_frequency: T,
    pub navaid_identifier: T,
    pub navaid_latitude: T,
    pub navaid_longitude: T,
    pub navaid_name: T,
    pub range: T,
    pub id: T,
}

impl View for NdbInsertRow {
    type V = NdbInsertRow<Seq<char>>;

    open spec fn view(&self) -> Self::V {
        NdbInsertRow {
            area_code: self.area_code@,
            continent: self.continent@,
            country: self.country@,
            datum_code: self.datum_code@,
            icao_code: self.icao_code@,
            navaid_class: self.navaid_class@,
            navaid_frequency: self.navaid_frequency@,
            navaid_identifier: self.navaid_identifier@,
            navaid_latitude: self.navaid_latitude@,
            navaid_longitude: self.navaid_longitude@,
            navaid_name: self.navaid_name@,
            range: self.range@,
            id: self.id@,
        }
    }
}

impl Bindable for NdbInsertRow {
    open spec fn cell(&self, variation: Option<u64>, column: Seq<char>) -> Cell<Seq<char>> {
        if column == "area_code"@ {
            Cell::Text(self@.area_code)
        } else if column == "continent"@ {
            Cell::Text(self@.continent)
        } else if column == "country"@ {
            Cell::Text(self@.country)
        } else if column == "datum_code"@ {
            Cell::Text(self@.datum_code)
        } else if column == "icao_code"@ {
            Cell::Text(self@.icao_code)
        } else if column == "magnetic_variation"@ {
            records::bits_cell(variation)
        } else if column == "navaid_class"@ {
            Cell::Text(self@.navaid_class)
        } else if column == "ndb_frequency"@ || column == "navaid_frequency"@ {
            Cell::Literal(self@.navaid_frequency)
        } else if column == "ndb_identifier"@ || column == "navaid_identifier"@ {
            Cell::Text(self@.navaid_identifier)
        } else if column == "ndb_latitude"@ || column == "navaid_latitude"@ {
            Cell::Literal(self@.navaid_latitude)
        } else if column == "ndb_longitude"@ || column == "navaid_longitude"@ {
            Cell::Literal(self@.navaid_longitude)
        } else if column == "ndb_name"@ || column == "navaid_name"@ {
            Cell::Text(self@.navaid_name)
        } else if column == "range"@ {
            Cell::Literal(self@.range)
        } else if column == "id"@ {
            Cell::Text(self@.id)
        } else {
            Cell::Null
        }
    }

    fn make_cell(&self, variation: Option<u64>, column: &str) -> (r: Cell) {
        if text::same(column, "area_code") {
            Cell::Text(self.area_code.clone())
        } else if text::same(column, "continent") {
            Cell::Text(self.continent.clone())
        } else if text::same(column, "country") {
            Cell::Text(self.country.clone())
        } else if text::same(column, "datum_code") {
            Cell::Text(self.datum_code.clone())
        } else if text::same(column, "icao_code") {
            Cell::Text(self.icao_code.clone())
        } else if text::same(column, "magnetic_variation") {
            records::make_bits_cell(variation)
        } else if text::same(column, "navaid_class") {
            Cell::Text(self.navaid_class.clone())
        } else if text::same(column, "ndb_frequency") || text::same(column, "navaid_frequency") {
            Cell::Literal(self.navaid_frequency.clone())
        } else if text::same(column, "ndb_identifier") || text::same(column, "navaid_identifier") {
            Cell::Text(self.navaid_identifier.clone())
        } else if text::same(column, "ndb_latitude") || text::same(column, "navaid_latitude") {
            Cell::Literal(self.navaid_latitude.clone())
        } else if text::same(column, "ndb_longitude") || text::same(column, "navaid_longitude") {
            Cell::Literal(self.navaid_longitude.clone())
        } else if text::same(column, "ndb_name") || text::same(column, "navaid_name") {
            Cell::Text(self.navaid_name.clone())
        } else if text::same(column, "range") {
            Cell::Literal(self.range.clone())
        } else if text::same(column, "id") {
            Cell::Text(self.id.clone())
        } else {
            Cell::Null
        }
    }
}

/// The columns of a table that always has the same.
pub open spec fn fixed_columns() -> Seq<Seq<char>> {
    seq![
        "area_code"@,
        "continent"@,
        "country"@,
        "datum_code"@,
        "icao_code"@,
        "magnetic_variation"@,
        "navaid_class"@,
        "navaid_frequency"@,
        "navaid_identifier"@,
        "navaid_latitude"@,
        "navaid_longitude"@,
        "navaid_name"@,
        "range"@,
    ]
}

/// The columns of a table that always has the same.
pub fn list_fixed_columns() -> (r: Vec<String>)
    ensures
        text::views(r@) == fixed_columns(),
{
    let r: Vec<String> = vec![
        text::copy("area_code"),
        text::copy("continent"),
        text::copy("country"),
        text::copy("datum_code"),
        text::copy("icao_code"),
        text::copy("magnetic_variation"),
        text::copy("navaid_class"),
        text::copy("navaid_frequency"),
        text::copy("navaid_identifier"),
        text::copy("navaid_latitude"),
        text::copy("navaid_longitude"),
        text::copy("navaid_name"),
        text::copy("range"),
    ];
    assert(text::views(r@) =~= fixed_columns());
    r
}

/// The beacon that is written for a record.
pub open spec fn ndb_insert(dataset: Dataset, row: NdbNavRow<Seq<char>>) -> NdbInsertRow<
    Seq<char>,
> {
    NdbInsertRow {
        area_code: match dataset {
            Dataset::Pmdg => regions::navaid_area(row.icao_code),
            Dataset::IniBuilds => "EEU"@,
        },
        continent: "ASIA"@,
        country: "CHINA"@,
        datum_code: "WGE"@,
        icao_code: row.icao_code,
        navaid_class: "H W"@,
        navaid_frequency: row.navaid_frequency,
        navaid_identifier: row.navaid_identifier,
        navaid_latitude: row.latitude,
        navaid_longitude: row.longitude,
        navaid_name: row.navaid_name,
        range: row.range,
        id: row.icao_code + row.navaid_identifier,
    }
}

fn make_insert(dataset: Dataset, row: &NdbNavRow) -> (r: NdbInsertRow)
    ensures
        r@ == ndb_insert(dataset, row@),
{
    let mut id: String = row.icao_code.clone();
    id.append(row.navaid_identifier.as_str());
    NdbInsertRow {
        area_code: match dataset {
            Dataset::Pmdg => text::copy(regions::navaid_area_code(row.icao_code.as_str())),
            Dataset::IniBuilds => text::copy("EEU"),
        },
        continent: text::copy("ASIA"),
        country: text::copy("CHINA"),
        datum_code: text::copy("WGE"),
        icao_code: row.icao_code.clone(),
        navaid_class: text::copy("H W"),
        navaid_frequency: row.navaid_frequency.clone(),
        navaid_identifier: row.navaid_identifier.clone(),
        navaid_latitude: row.latitude.clone(),
        navaid_longitude: row.longitude.clone(),
        navaid_name: row.navaid_name.clone(),
        range: row.range.clone(),
        id,
    }
}

/// The beacons that are written: those of the records that the table does not have.
pub open spec fn new_beacons(
    dataset: Dataset,
    rows: Seq<NdbNavRow>,
    existing: Seq<Seq<Seq<char>>>,
) -> Seq<NdbInsertRow<Seq<char>>> {
    rows.filter(records::absent(existing)).map_values(
        |row: NdbNavRow| ndb_insert(dataset, row@),
    )
}

/// Lays out the beacons that the table does not have.
pub fn process_ndbs_to_db(dataset: Dataset, rows: Vec<NdbNavRow>, existing: &RowSet) -> (out: Vec<
    NdbInsertRow,
>)
    requires
        existing.wf(),
    ensures
        text::views(out@) == new_beacons(dataset, rows@, existing@),
{
    let ghost goal = new_beacons(dataset, rows@, existing@);
    let fresh: Vec<NdbNavRow> = records::retain_absent(rows, existing);
    let mut out: Vec<NdbInsertRow> = Vec::new();
    assert(text::views(out@) =~= goal.take(0));
    for i in 0..fresh.len()
        invariant
            goal == fresh@.map_values(|row: NdbNavRow| ndb_insert(dataset, row@)),
            text::views(out@) == goal.take(i as int),
    {
        let row: NdbInsertRow = make_insert(dataset, &fresh[i]);
        proof {
            text::lemma_views_push(out@, row);
            assert(goal.take(i + 1) =~= goal.take(i as int).push(row@));
        }
        out.push(row);
    }
    assert(goal.take(fresh@.len() as int) == goal);
    out
}

/// The statement that creates the table of beacons.
pub fn create_table_statement(dataset: Dataset) -> (r: &'static str)
    ensures
        r@ == (match dataset {
            Dataset::Pmdg
                => "CREATE TABLE IF NOT EXISTS tbl_enroute_ndbnavaids (\n            area_code TEXT,\n            icao_code TEXT,\n            ndb_identifier TEXT,\n            ndb_name TEXT,\n            ndb_frequency REAL,\n            navaid_class TEXT,\n            ndb_latitude REAL,\n            ndb_longitude REAL,\n            range REAL,\n            id TEXT\n        )"@,
            Dataset::IniBuilds
                => "CREATE TABLE IF NOT EXISTS tbl_db_enroute_ndbnavaids (\n            area_code TEXT DEFAULT 'EEU',\n            continent TEXT DEFAULT 'ASIA',\n            country TEXT DEFAULT 'CHINA',\n            datum_code TEXT DEFAULT 'WGE',\n            icao_code TEXT,\n            magnetic_variation REAL,\n            navaid_class TEXT DEFAULT 'H W',\n            navaid_frequency REAL,\n            navaid_identifier TEXT,\n            navaid_latitude REAL,\n            navaid_longitude REAL,\n            navaid_name TEXT,\n            range REAL\n        )"@,
        }),
{
    match dataset {
        Dataset::Pmdg
            => "CREATE TABLE IF NOT EXISTS tbl_enroute_ndbnavaids (\n            area_code TEXT,\n            icao_code TEXT,\n            ndb_identifier TEXT,\n            ndb_name TEXT,\n            ndb_frequency REAL,\n            navaid_class TEXT,\n            ndb_latitude REAL,\n            ndb_longitude REAL,\n            range REAL,\n            id TEXT\n        )",
        Dataset::IniBuilds
            => "CREATE TABLE IF NOT EXISTS tbl_db_enroute_ndbnavaids (\n            area_code TEXT DEFAULT 'EEU',\n            continent TEXT DEFAULT 'ASIA',\n            country TEXT DEFAULT 'CHINA',\n            datum_code TEXT DEFAULT 'WGE',\n            icao_code TEXT,\n            magnetic_variation REAL,\n            navaid_class TEXT DEFAULT 'H W',\n            navaid_frequency REAL,\n            navaid_identifier TEXT,\n            navaid_latitude REAL,\n            navaid_longitude REAL,\n            navaid_name TEXT,\n            range REAL\n        )",
    }
}

/// The statement that inserts a beacon with the given columns.
pub open spec fn insert_statement(dataset: Dataset, columns: Seq<Seq<char>>) -> Seq<char> {
    match dataset {
        Dataset::Pmdg => db::insert_statement("tbl_enroute_ndbnavaids"@, columns),
        Dataset::IniBuilds => records::fixed_insert(
            "INSERT"@,
            "tbl_db_enroute_ndbnavaids"@,
            columns,
        ),
    }
}

/// Builds the statement that inserts a beacon with the given columns.
pub fn build_insert_sql(dataset: Dataset, columns: &Vec<String>) -> (sql: String)
    ensures
        sql@ == insert_statement(dataset, text::views(columns@)),
{
    match dataset {
        Dataset::Pmdg => db::build_insert_sql("tbl_enroute_ndbnavaids", columns),
        Dataset::IniBuilds => records::fixed_insert_sql(
            "INSERT",
            "tbl_db_enroute_ndbnavaids",
            columns,
        ),
    }
}

/// Once the new beacons have been written, nothing is left to write for the same file.
pub proof fn rerun_writes_nothing(
    dataset: Dataset,
    rows: Seq<NdbNavRow>,
    existing: Seq<Seq<Seq<char>>>,
    after: Seq<Seq<Seq<char>>>,
)
    requires
        forall|key: Seq<Seq<char>>| #[trigger] existing.contains(key) ==> after.contains(key),
        forall|i: int|
            0 <= i < rows.filter(records::absent(existing)).len() ==> after.contains(
                (#[trigger] rows.filter(records::absent(existing))[i]).key(),
            ),
    ensures
        new_beacons(dataset, rows, after).len() == 0,
{
    records::filtered_rerun_is_empty(rows, existing, after);
}

/// Every column of the table holds what it is named for.
pub proof fn every_column_holds_what_it_is_named_for(row: NdbInsertRow, variation: Option<u64>)
    ensures
        row.cell(variation, "area_code"@) == Cell::Text(row.area_code@),
        row.cell(variation, "continent"@) == Cell::Text(row.continent@),
        row.cell(variation, "country"@) == Cell::Text(row.country@),
        row.cell(variation, "datum_code"@) == Cell::Text(row.datum_code@),
        row.cell(variation, "icao_code"@) == Cell::Text(row.icao_code@),
        row.cell(variation, "magnetic_variation"@) == records::bits_cell(variation),
        row.cell(variation, "navaid_class"@) == Cell::Text(row.navaid_class@),
        row.cell(variation, "ndb_frequency"@) == Cell::Literal(row.navaid_frequency@),
        row.cell(variation, "navaid_frequency"@) == Cell::Literal(row.navaid_frequency@),
        row.cell(variation, "ndb_identifier"@) == Cell::Text(row.navaid_identifier@),
        row.cell(variation, "navaid_identifier"@) == Cell::Text(row.navaid_identifier@),
        row.cell(variation, "ndb_latitude"@) == Cell::Literal(row.navaid_latitude@),
        row.cell(variation, "navaid_latitude"@) == Cell::Literal(row.navaid_latitude@),
        row.cell(variation, "ndb_longitude"@) == Cell::Literal(row.navaid_longitude@),
        row.cell(variation, "navaid_longitude"@) == Cell::Literal(row.navaid_longitude@),
        row.cell(variation, "ndb_name"@) == Cell::Text(row.navaid_name@),
        row.cell(variation, "navaid_name"@) == Cell::Text(row.navaid_name@),
        row.cell(variation, "range"@) == Cell::Literal(row.range@),
        row.cell(variation, "id"@) == Cell::Text(row.id@),
{
    reveal_strlit("area_code");
    assert("area_code"@.len() == 9);
    reveal_strlit("continent");
    assert("continent"@.len() == 9);
    reveal_strlit("country");
    assert("country"@.len() == 7);
    reveal_strlit("datum_code");
    assert("datum_code"@.len() == 10);
    reveal_strlit("icao_code");
    assert("icao_code"@.len() == 9);
    reveal_strlit("magnetic_variation");
    assert("magnetic_variation"@.len() == 18);
    reveal_strlit("navaid_class");
    assert("navaid_class"@.len() == 12);
    reveal_strlit("ndb_frequency");
    assert("ndb_frequency"@.len() == 13);
    reveal_strlit("navaid_frequency");
    assert("navaid_frequency"@.len() == 16);
    reveal_strlit("ndb_identifier");
    assert("ndb_identifier"@.len() == 14);
    reveal_strlit("navaid_identifier");
    assert("navaid_identifier"@.len() == 17);
    reveal_strlit("ndb_latitude");
    assert("ndb_latitude"@.len() == 12);
    reveal_strlit("navaid_latitude");
    assert("navaid_latitude"@.len() == 15);
    reveal_strlit("ndb_longitude");
    assert("ndb_longitude"@.len() == 13);
    reveal_strlit("navaid_longitude");
    assert("navaid_longitude"@.len() == 16);
    reveal_strlit("ndb_name");
    assert("ndb_name"@.len() == 8);
    reveal_strlit("navaid_name");
    assert("navaid_name"@.len() == 11);
    reveal_strlit("range");
    assert("range"@.len() == 5);
    reveal_strlit("id");
    assert("id"@.len() == 2);
    assert("area_code"@[0] != "continent"@[0]);
    assert("area_code"@[0] != "icao_code"@[0]);
    assert("continent"@[0] != "icao_code"@[0]);
    assert("navaid_class"@[1] != "ndb_latitude"@[1]);
    assert("ndb_frequency"@[4] != "ndb_longitude"@[4]);
    assert("navaid_frequency"@[7] != "navaid_longitude"@[7]);
}

/// No column of the table is left out, and none is written twice.
pub proof fn every_column_is_written(row: NdbInsertRow, variation: Option<u64>)
    ensures
        fixed_columns().len() == 13,
        fixed_columns().contains("area_code"@),
        fixed_columns().contains("continent"@),
        fixed_columns().contains("country"@),
        fixed_columns().contains("datum_code"@),
        fixed_columns().contains("icao_code"@),
        fixed_columns().contains("magnetic_variation"@),
        fixed_columns().contains("navaid_class"@),
        fixed_columns().contains("navaid_frequency"@),
        fixed_columns().contains("navaid_identifier"@),
        fixed_columns().contains("navaid_latitude"@),
        fixed_columns().contains("navaid_longitude"@),
        fixed_columns().contains("navaid_name"@),
        fixed_columns().contains("range"@),
        forall|i: int|
            0 <= i < fixed_columns().len() ==> #[trigger] records::bound_row(row, variation, fixed_columns())[i]
                == row.cell(variation, fixed_columns()[i]),
{
    assert(fixed_columns()[0] == "area_code"@);
    assert(fixed_columns()[1] == "continent"@);
    assert(fixed_columns()[2] == "country"@);
    assert(fixed_columns()[3] == "datum_code"@);
    assert(fixed_columns()[4] == "icao_code"@);
    assert(fixed_columns()[5] == "magnetic_variation"@);
    assert(fixed_columns()[6] == "navaid_class"@);
    assert(fixed_columns()[7] == "navaid_frequency"@);
    assert(fixed_columns()[8] == "navaid_identifier"@);
    assert(fixed_columns()[9] == "navaid_latitude"@);
    assert(fixed_columns()[10] == "navaid_longitude"@);
    assert(fixed_columns()[11] == "navaid_name"@);
    assert(fixed_columns()[12] == "range"@);
}

/// A beacon is written with what was read of it, under an identifier made of its ICAO code and its
/// own; both datasets know other areas.
pub proof fn a_beacon_is_written_as_it_was_read(dataset: Dataset, row: NdbNavRow)
    ensures
        ({
            let written = ndb_insert(dataset, row@);
            &&& dataset == Dataset::Pmdg && row.icao_code@ == "VH"@ ==> written.area_code == "PAC"@
            &&& dataset == Dataset::Pmdg && row.icao_code@ != "VH"@ ==> written.area_code == "EEU"@
            &&& dataset == Dataset::IniBuilds ==> written.area_code == "EEU"@
            &&& written.continent == "ASIA"@
            &&& written.country == "CHINA"@
            &&& written.datum_code == "WGE"@
            &&& written.navaid_class == "H W"@
            &&& written.icao_code == row.icao_code@
            &&& written.navaid_frequency == row.navaid_frequency@
            &&& written.navaid_identifier == row.navaid_identifier@
            &&& written.navaid_latitude == row.latitude@
            &&& written.navaid_longitude == row.longitude@
            &&& written.navaid_name == row.navaid_name@
            &&& written.range == row.range@
            &&& written.id == row.icao_code@ + row.navaid_identifier@
        }),
{
}

/// Just the beacons are written whose identifier and ICAO code the table does not have together.
pub proof fn just_the_unknown_beacons_are_written(
    dataset: Dataset,
    rows: Seq<NdbNavRow>,
    existing: Seq<Seq<Seq<char>>>,
    written: NdbInsertRow<Seq<char>>,
)
    ensures
        new_beacons(dataset, rows, existing).contains(written) <==> exists|i: int|
            0 <= i < rows.len() && !existing.contains(seq![(#[trigger] rows[i]).navaid_identifier@, rows[i].icao_code@])
                && ndb_insert(dataset, rows[i]@) == written,
{
    broadcast use vstd::seq_lib::group_filter_ensures;

    let keep = records::absent::<NdbNavRow>(existing);
    let kept = rows.filter(keep);
    let all = new_beacons(dataset, rows, existing);
    if all.contains(written) {
        let k = choose|k: int| 0 <= k < all.len() && all[k] == written;
        assert(keep(kept[k]));
        assert(kept.contains(kept[k]));
        rows.lemma_filter_contains_rev(keep, kept[k]);
        let i = choose|i: int| 0 <= i < rows.len() && rows[i] == kept[k];
        assert(!existing.contains(rows[i].key()));
    }
    if exists|i: int|
        0 <= i < rows.len() && !existing.contains(seq![(#[trigger] rows[i]).navaid_identifier@, rows[i].icao_code@])
            && ndb_insert(dataset, rows[i]@) == written {
        let i = choose|i: int|
            0 <= i < rows.len() && !existing.contains(seq![(#[trigger] rows[i]).navaid_identifier@, rows[i].icao_code@])
                && ndb_insert(dataset, rows[i]@) == written;
        assert(keep(rows[i]));
        assert(kept.contains(rows[i]));
        let k = choose|k: int| 0 <= k < kept.len() && kept[k] == rows[i];
        assert(all[k] == written);
    }
}

/// Known beacons are asked for by identifier and ICAO code, in the order of their keys, from the
/// table of the dataset, and new ones are written to the same table.
pub proof fn known_rows_are_asked_for_by_their_keys(columns: Seq<Seq<char>>)
    ensures
        known_query_head(Dataset::Pmdg) == "SELECT ndb_identifier, icao_code FROM "@
            + db::quoted_identifier("tbl_enroute_ndbnavaids"@)
            + " WHERE (ndb_identifier, icao_code) IN ("@,
        known_query_head(Dataset::IniBuilds)
            == "SELECT navaid_identifier, icao_code FROM tbl_db_enroute_ndbnavaids WHERE (navaid_identifier, icao_code) IN ("@,
        insert_statement(Dataset::Pmdg, columns) == db::insert_statement(
            "tbl_enroute_ndbnavaids"@,
            columns,
        ),
        insert_statement(Dataset::IniBuilds, columns) == records::fixed_insert(
            "INSERT"@,
            "tbl_db_enroute_ndbnavaids"@,
            columns,
        ),
{
}

/// Every field of a `NdbInsertRow` is seen under its own name.
pub proof fn every_field_of_ndb_insert_row_is_seen(it: NdbInsertRow)
    ensures
        it@.area_code == it.area_code@,
        it@.continent == it.continent@,
        it@.country == it.country@,
        it@.datum_code == it.datum_code@,
        it@.icao_code == it.icao_code@,
        it@.navaid_class == it.navaid_class@,
        it@.navaid_frequency == it.navaid_frequency@,
        it@.navaid_identifier == it.navaid_identifier@,
        it@.navaid_latitude == it.navaid_latitude@,
        it@.navaid_longitude == it.navaid_longitude@,
        it@.navaid_name == it.navaid_name@,
        it@.range == it.range@,
        it@.id == it.id@,
{
}

} // verus!
