//! Terminal waypoints: leaving out known ones and laying out the rest for the table.

use crate::db;
use crate::db::{BoundQuery, Cell};
use crate::keyed;
use crate::keyed::RowSet;
use crate::parsers::TerminalWaypointRow;
use crate::records;
use crate::records::{Bindable, Record};
use crate::text;
use vstd::prelude::*;

verus! {

/// A waypoint as it is written to the table.
#[verifier::ext_equal]
pub struct TerminalWaypointRecord<T = String> {
    pub area_code: T,
    pub icao_code: T,
    pub region_code: T,
    pub waypoint_identifier: T,
    pub waypoint_latitude: T,
    pub waypoint_longitude: T,
    pub waypoint_name: T,
    pub waypoint_type: T,
    pub id: T,
}

impl View for TerminalWaypointRecord {
    type V = TerminalWaypointRecord<Seq<char>>;

    open spec fn view(&self) -> Self::V {
        TerminalWaypointRecord {
            area_code: self.area_code@,
            icao_code: self.icao_code@,
            region_code: self.region_code@,
            waypoint_identifier: self.waypoint_identifier@,
            waypoint_latitude: self.waypoint_latitude@,
            waypoint_longitude: self.waypoint_longitude@,
            waypoint_name: self.waypoint_name@,
            waypoint_type: self.waypoint_type@,
            id: self.id@,
        }
    }
}

impl TerminalWaypointRecord {
    /// The record of a waypoint that was read.
    pub open spec fn of(row: TerminalWaypointRow<Seq<char>>) -> TerminalWaypointRecord<Seq<char>> {
        TerminalWaypointRecord {
            area_code: "EEU"@,
            icao_code: row.icao_code,
            region_code: row.region_code,
            waypoint_identifier: row.waypoint_identifier,
            waypoint_latitude: row.latitude,
            waypoint_longitude: row.longitude,
            waypoint_name: row.waypoint_name,
            waypoint_type: row.waypoint_type,
            id: row.region_code + row.icao_code + row.waypoint_identifier,
        }
    }

    /// Makes the record of a waypoint that was read.
    pub fn from_parsed(row: &TerminalWaypointRow) -> (r: TerminalWaypointRecord)
        ensures
            r@ == TerminalWaypointRecord::of(row@),
    {
        let mut id: String = row.region_code.clone();
        id.append(row.icao_code.as_str());
        id.append(row.waypoint_identifier.as_str());
        TerminalWaypointRecord {
            area_code: text::copy("EEU"),
            icao_code: row.icao_code.clone(),
            region_code: row.region_code.clone(),
            waypoint_identifier: row.waypoint_identifier.clone(),
            waypoint_latitude: row.latitude.clone(),
            waypoint_longitude: row.longitude.clone(),
            waypoint_name: row.waypoint_name.clone(),
            waypoint_type: row.waypoint_type.clone(),
            id,
        }
    }
}

impl Record for TerminalWaypointRow {
    open spec fn key(&self) -> Seq<Seq<char>> {
        seq![self.region_code@, self.waypoint_identifier@]
    }

    fn key_row(&self) -> (r: Vec<String>) {
        let r: Vec<String> = vec![self.region_code.clone(), self.waypoint_identifier.clone()];
        assert(text::views(r@) =~= self.key());
        r
    }
}

impl Bindable for TerminalWaypointRecord {
    open spec fn cell(&self, variation: Option<u64>, column: Seq<char>) -> Cell<Seq<char>> {
        if column == "area_code"@ {
            Cell::Text(self@.area_code)
        } else if column == "icao_code"@ {
            Cell::Text(self@.icao_code)
        } else if column == "region_code"@ {
            Cell::Text(self@.region_code)
        } else if column == "waypoint_identifier"@ {
            Cell::Text(self@.waypoint_identifier)
        } else if column == "waypoint_latitude"@ {
            Cell::Literal(self@.waypoint_latitude)
        } else if column == "waypoint_longitude"@ {
            Cell::Literal(self@.waypoint_longitude)
        } else if column == "waypoint_name"@ {
            Cell::Text(self@.waypoint_name)
        } else if column == "waypoint_type"@ {
            Cell::Text(self@.waypoint_type)
        } else if column == "id"@ {
            Cell::Text(self@.id)
        } else {
            Cell::Null
        }
    }

    fn make_cell(&self, variation: Option<u64>, column: &str) -> (r: Cell) {
        if text::same(column, "area_code") {
            Cell::Text(self.area_code.clone())
        } else if text::same(column, "icao_code") {
            Cell::Text(self.icao_code.clone())
        } else if text::same(column, "region_code") {
            Cell::Text(self.region_code.clone())
        } else if text::same(column, "waypoint_identifier") {
            Cell::Text(self.waypoint_identifier.clone())
        } else if text::same(column, "waypoint_latitude") {
            Cell::Literal(self.waypoint_latitude.clone())
        } else if text::same(column, "waypoint_longitude") {
            Cell::Literal(self.waypoint_longitude.clone())
        } else if text::same(column, "waypoint_name") {
            Cell::Text(self.waypoint_name.clone())
        } else if text::same(column, "waypoint_type") {
            Cell::Text(self.waypoint_type.clone())
        } else if text::same(column, "id") {
            Cell::Text(self.id.clone())
        } else {
            Cell::Null
        }
    }
}

/// The columns of the table, in the order in which they are written.
pub open spec fn insert_columns() -> Seq<Seq<char>> {
    seq![
        "area_code"@,
        "region_code"@,
        "icao_code"@,
        "waypoint_identifier"@,
        "waypoint_name"@,
        "waypoint_type"@,
        "waypoint_latitude"@,
        "waypoint_longitude"@,
        "id"@,
    ]
}

/// The columns of the table, in the order in which they are written.
pub fn list_insert_columns() -> (r: Vec<String>)
    ensures
        text::views(r@) == insert_columns(),
{
    let r: Vec<String> = vec![
        text::copy("area_code"),
        text::copy("region_code"),
        text::copy("icao_code"),
        text::copy("waypoint_identifier"),
        text::copy("waypoint_name"),
        text::copy("waypoint_type"),
        text::copy("waypoint_latitude"),
        text::copy("waypoint_longitude"),
        text::copy("id"),
    ];
    assert(text::views(r@) =~= insert_columns());
    r
}

/// The start of the query for known waypoints.
pub open spec fn known_query_head(table: Seq<char>) -> Seq<char> {
    "SELECT region_code, waypoint_identifier FROM "@ + table
        + " WHERE (region_code, waypoint_identifier) IN ("@
}

/// The queries for those of the waypoints that the table has.
pub fn fetch_existing_pairs(table: &str, rows: &Vec<TerminalWaypointRow>, batch_size: usize) -> (out:
    Vec<BoundQuery>)
    ensures
        text::views(out@) == db::row_queries(
            known_query_head(table@),
            "(?,?)"@,
            keyed::distinct_rows(records::keys_of(rows@)),
            db::batch_limit(batch_size as int, 2),
        ),
{
    let keys: RowSet = records::list_keys(rows);
    let mut head: String = text::copy("SELECT region_code, waypoint_identifier FROM ");
    head.append(table);
    head.append(" WHERE (region_code, waypoint_identifier) IN (");
    db::list_row_queries(
        head.as_str(),
        "(?,?)",
        keys.rows(),
        db::pair_query_batch_size(batch_size),
    )
}

/// The statement that creates the index over the keys of a table.
pub open spec fn index_statement(table: Seq<char>) -> Seq<char> {
    "CREATE INDEX IF NOT EXISTS idx_"@ + table + "_region_identifier ON "@ + table
        + "(region_code, waypoint_identifier)"@
}

/// Builds the statement that creates the index over the keys of a table.
pub fn ensure_terminal_waypoints_index(table: &str) -> (sql: String)
    ensures
        sql@ == index_statement(table@),
{
    let mut sql: String = text::copy("CREATE INDEX IF NOT EXISTS idx_");
    sql.append(table);
    sql.append("_region_identifier ON ");
    sql.append(table);
    sql.append("(region_code, waypoint_identifier)");
    sql
}

/// The table is not one that terminal waypoints can be written to.
#[derive(Clone, Copy, PartialEq, Eq, Debug, Structural)]
pub struct UnsupportedTable;

/// Builds the statement that inserts a waypoint; there is only one table for them.
pub fn build_insert_sql(table: &str) -> (r: Result<String, UnsupportedTable>)
    ensures
        match r {
            Ok(sql) => table@ == "tbl_terminal_waypoints"@ && sql@ == records::fixed_insert(
                "INSERT OR IGNORE"@,
                "tbl_terminal_waypoints"@,
                insert_columns(),
            ),
            Err(_) => table@ != "tbl_terminal_waypoints"@,
        },
{
    if !text::same(table, "tbl_terminal_waypoints") {
        return Err(UnsupportedTable);
    }
    Ok(
        records::fixed_insert_sql(
            "INSERT OR IGNORE",
            "tbl_terminal_waypoints",
            &list_insert_columns(),
        ),
    )
}

/// What is written for a file of terminal waypoints.
pub struct TerminalWaypointPlan {
    /// How many waypoints the file has.
    pub parsed: usize,
    /// Those that the table does not have.
    pub records: Vec<TerminalWaypointRecord>,
    /// The statement that inserts one, where there are any.
    pub insert: Option<String>,
}

/// The records that are written: those of the waypoints that the table does not have.
pub open spec fn new_records(
    rows: Seq<TerminalWaypointRow>,
    existing: Seq<Seq<Seq<char>>>,
) -> Seq<TerminalWaypointRecord<Seq<char>>> {
    rows.filter(records::absent(existing)).map_values(
        |row: TerminalWaypointRow| TerminalWaypointRecord::of(row@),
    )
}

/// Plans what is written for the waypoints of a file, given the keys of those that the table has.
/// A table that is not supported is refused only where there is something to write.
pub fn process_terminal_waypoints_file_to_db(
    rows: Vec<TerminalWaypointRow>,
    table: &str,
    existing: &RowSet,
) -> (r: Result<TerminalWaypointPlan, UnsupportedTable>)
    requires
        existing.wf(),
    ensures
        ({
            let fresh = new_records(rows@, existing@);
            match r {
                Ok(plan) => {
                    &&& fresh.len() == 0 || table@ == "tbl_terminal_waypoints"@
                    &&& plan.parsed == rows@.len()
                    &&& text::views(plan.records@) == fresh
                    &&& text::opt(plan.insert) == (if fresh.len() == 0 {
                        None
                    } else {
                        Some(
                            records::fixed_insert(
                                "INSERT OR IGNORE"@,
                                "tbl_terminal_waypoints"@,
                                insert_columns(),
                            ),
                        )
                    })
                },
                Err(_) => fresh.len() > 0 && table@ != "tbl_terminal_waypoints"@,
            }
        }),
{
    let ghost goal = new_records(rows@, existing@);
    let parsed: usize = rows.len();
    let fresh: Vec<TerminalWaypointRow> = records::retain_absent(rows, existing);
    let mut out: Vec<TerminalWaypointRecord> = Vec::new();
    assert(text::views(out@) =~= goal.take(0));
    for i in 0..fresh.len()
        invariant
            goal == fresh@.map_values(
                |row: TerminalWaypointRow| TerminalWaypointRecord::of(row@),
            ),
            text::views(out@) == goal.take(i as int),
    {
        let record: TerminalWaypointRecord = TerminalWaypointRecord::from_parsed(&fresh[i]);
        proof {
            text::lemma_views_push(out@, record);
            assert(goal.take(i + 1) =~= goal.take(i as int).push(record@));
        }
        out.push(record);
    }
    assert(goal.take(fresh@.len() as int) == goal);
    if out.len() == 0 {
        assert(goal.len() == 0);
        return Ok(TerminalWaypointPlan { parsed, records: out, insert: None });
    }
    assert(goal.len() == out@.len());
    match build_insert_sql(table) {
        Ok(sql) => Ok(TerminalWaypointPlan { parsed, records: out, insert: Some(sql) }),
        Err(error) => Err(error),
    }
}

/// Once what was planned has been written, nothing is left to write for the same file.
pub proof fn rerun_writes_nothing(
    rows: Seq<TerminalWaypointRow>,
    existing: Seq<Seq<Seq<char>>>,
    after: Seq<Seq<Seq<char>>>,
)
    requires
        forall|key: Seq<Seq<char>>| #[trigger] existing.contains(key) ==> after.contains(key),
        forall|i: int|
            0 <= i < rows.filter(records::absent(existing)).len() ==> after.contains(
                (#[trigger] rows.filter(records::absent(existing))[i]).key(),
            ),
    ensures
        new_records(rows, after).len() == 0,
{
    records::filtered_rerun_is_empty(rows, existing, after);
}

/// Every column of the table holds what it is named for.
pub proof fn every_column_holds_what_it_is_named_for(row: TerminalWaypointRecord, variation: Option<u64>)
    ensures
        row.cell(variation, "area_code"@) == Cell::Text(row.area_code@),
        row.cell(variation, "icao_code"@) == Cell::Text(row.icao_code@),
        row.cell(variation, "region_code"@) == Cell::Text(row.region_code@),
        row.cell(variation, "waypoint_identifier"@) == Cell::Text(row.waypoint_identifier@),
        row.cell(variation, "waypoint_latitude"@) == Cell::Literal(row.waypoint_latitude@),
        row.cell(variation, "waypoint_longitude"@) == Cell::Literal(row.waypoint_longitude@),
        row.cell(variation, "waypoint_name"@) == Cell::Text(row.waypoint_name@),
        row.cell(variation, "waypoint_type"@) == Cell::Text(row.waypoint_type@),
        row.cell(variation, "id"@) == Cell::Text(row.id@),
{
    reveal_strlit("area_code");
    assert("area_code"@.len() == 9);
    reveal_strlit("icao_code");
    assert("icao_code"@.len() == 9);
    reveal_strlit("region_code");
    assert("region_code"@.len() == 11);
    reveal_strlit("waypoint_identifier");
    assert("waypoint_identifier"@.len() == 19);
    reveal_strlit("waypoint_latitude");
    assert("waypoint_latitude"@.len() == 17);
    reveal_strlit("waypoint_longitude");
    assert("waypoint_longitude"@.len() == 18);
    reveal_strlit("waypoint_name");
    assert("waypoint_name"@.len() == 13);
    reveal_strlit("waypoint_type");
    assert("waypoint_type"@.len() == 13);
    reveal_strlit("id");
    assert("id"@.len() == 2);
    assert("area_code"@[0] != "icao_code"@[0]);
    assert("waypoint_name"@[9] != "waypoint_type"@[9]);
}

/// No column of the table is left out, and none is written twice.
pub proof fn every_column_is_written(row: TerminalWaypointRecord, variation: Option<u64>)
    ensures
        insert_columns().len() == 9,
        insert_columns().contains("area_code"@),
        insert_columns().contains("region_code"@),
        insert_columns().contains("icao_code"@),
        insert_columns().contains("waypoint_identifier"@),
        insert_columns().contains("waypoint_name"@),
        insert_columns().contains("waypoint_type"@),
        insert_columns().contains("waypoint_latitude"@),
        insert_columns().contains("waypoint_longitude"@),
        insert_columns().contains("id"@),
        forall|i: int|
            0 <= i < insert_columns().len() ==> #[trigger] records::bound_row(row, variation, insert_columns())[i]
                == row.cell(variation, insert_columns()[i]),
{
    assert(insert_columns()[0] == "area_code"@);
    assert(insert_columns()[1] == "region_code"@);
    assert(insert_columns()[2] == "icao_code"@);
    assert(insert_columns()[3] == "waypoint_identifier"@);
    assert(insert_columns()[4] == "waypoint_name"@);
    assert(insert_columns()[5] == "waypoint_type"@);
    assert(insert_columns()[6] == "waypoint_latitude"@);
    assert(insert_columns()[7] == "waypoint_longitude"@);
    assert(insert_columns()[8] == "id"@);
}

/// A waypoint is written with its own position and names, under an identifier made of its region,
/// its ICAO code and its name.
pub proof fn a_waypoint_is_written_as_it_was_read(row: TerminalWaypointRow<Seq<char>>)
    ensures
        ({
            let record = TerminalWaypointRecord::of(row);
            &&& record.waypoint_latitude == row.latitude
            &&& record.waypoint_longitude == row.longitude
            &&& record.waypoint_identifier == row.waypoint_identifier
            &&& record.waypoint_name == row.waypoint_name
            &&& record.waypoint_type == row.waypoint_type
            &&& record.region_code == row.region_code
            &&& record.icao_code == row.icao_code
            &&& record.area_code == "EEU"@
            &&& record.id == row.region_code + row.icao_code + row.waypoint_identifier
        }),
{
}

/// Just the waypoints are written whose region and identifier the table does not have together.
pub proof fn just_the_unknown_waypoints_are_written(
    rows: Seq<TerminalWaypointRow>,
    existing: Seq<Seq<Seq<char>>>,
    i: int,
)
    requires
        0 <= i < rows.len(),
    ensures
        !existing.contains(seq![rows[i].region_code@, rows[i].waypoint_identifier@])
            ==> new_records(rows, existing).contains(TerminalWaypointRecord::of(rows[i]@)),
        forall|k: int|
            0 <= k < new_records(rows, existing).len() ==> !existing.contains(
                seq![
                    (#[trigger] new_records(rows, existing)[k]).region_code,
                    new_records(rows, existing)[k].waypoint_identifier,
                ],
            ),
{
    broadcast use vstd::seq_lib::group_filter_ensures;

    let keep = records::absent::<TerminalWaypointRow>(existing);
    let kept = rows.filter(keep);
    if !existing.contains(seq![rows[i].region_code@, rows[i].waypoint_identifier@]) {
        assert(keep(rows[i]));
        assert(kept.contains(rows[i]));
        let k = choose|k: int| 0 <= k < kept.len() && kept[k] == rows[i];
        assert(new_records(rows, existing)[k] == TerminalWaypointRecord::of(rows[i]@));
    }
    assert forall|k: int| 0 <= k < new_records(rows, existing).len() implies !existing.contains(
        seq![
            (#[trigger] new_records(rows, existing)[k]).region_code,
            new_records(rows, existing)[k].waypoint_identifier,
        ],
    ) by {
        assert(keep(kept[k]));
    }
}

/// Known waypoints are asked for by region and identifier, in the order of their keys, and the table
/// is indexed by the same columns.
pub proof fn known_rows_are_asked_for_by_their_keys(table: Seq<char>, row: TerminalWaypointRow)
    ensures
        known_query_head(table) == "SELECT region_code, waypoint_identifier FROM "@ + table
            + " WHERE (region_code, waypoint_identifier) IN ("@,
        index_statement(table) == "CREATE INDEX IF NOT EXISTS idx_"@ + table
            + "_region_identifier ON "@ + table + "(region_code, waypoint_identifier)"@,
        row.key() == seq![row.region_code@, row.waypoint_identifier@],
{
}

/// Every field of a `TerminalWaypointRecord` is seen under its own name.
pub proof fn every_field_of_terminal_waypoint_record_is_seen(it: TerminalWaypointRecord)
    ensures
        it@.area_code == it.area_code@,
        it@.icao_code == it.icao_code@,
        it@.region_code == it.region_code@,
        it@.waypoint_identifier == it.waypoint_identifier@,
        it@.waypoint_latitude == it.waypoint_latitude@,
        it@.waypoint_longitude == it.waypoint_longitude@,
        it@.waypoint_name == it.waypoint_name@,
        it@.waypoint_type == it.waypoint_type@,
        it@.id == it.id@,
{
}

} // verus!
