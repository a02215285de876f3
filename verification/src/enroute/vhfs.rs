//! VHF navigation aids: naming them, leaving out known ones and laying out the rest.

use crate::db;
use crate::db::{BoundQuery, Cell};
use crate::decode;
use crate::keyed;
use crate::keyed::RowSet;
use crate::names;
use crate::parsers::VhfNavRow;
use crate::records;
use crate::records::{Bindable, Record};
use crate::regions;
use crate::tables;
use crate::tables::{CsvTable, TableError};
use crate::text;
use vstd::hash_map::StringHashMap;
use vstd::prelude::*;

verus! {

/// The identifier and the name in a row, where it has both.
pub open spec fn name_entry(code_at: Option<usize>, name_at: Option<usize>) -> spec_fn(
    int,
    Seq<Seq<char>>,
) -> Option<(Seq<char>, Seq<char>)> {
    |i: int, row: Seq<Seq<char>>|
        match (tables::field(row, code_at), tables::field(row, name_at)) {
            (Some(code), Some(name)) => Some((code, name)),
            _ => None,
        }
}

/// The identifiers and names that a table of navigation aids gives.
pub open spec fn name_entries(table: (Seq<Seq<char>>, Seq<Seq<Seq<char>>>)) -> Result<
    Seq<(Seq<char>, Seq<char>)>,
    TableError<Seq<char>>,
> {
    match tables::column(table.0, "CODE_ID"@) {
        Some(code_at) => Ok(
            text::collect(
                table.1,
                name_entry(Some(code_at), tables::column(table.0, "TXT_NAME"@)),
            ),
        ),
        None => Err(TableError::MissingColumn("CODE_ID"@)),
    }
}

/// Reads the identifiers and names of a table of navigation aids.
pub fn read_name_entries(table: &CsvTable) -> (r: Result<Vec<(String, String)>, TableError>)
    ensures
        match r {
            Ok(entries) => name_entries(table@) == Ok::<
                Seq<(Seq<char>, Seq<char>)>,
                TableError<Seq<char>>,
            >(text::views(entries@)),
            Err(error) => name_entries(table@) == Err::<
                Seq<(Seq<char>, Seq<char>)>,
                TableError<Seq<char>>,
            >(error@),
        },
{
    let code_at: usize = match tables::required_index(&table.headers, "CODE_ID") {
        Ok(position) => position,
        Err(error) => return Err(error),
    };
    let name_at: Option<usize> = tables::optional_index(&table.headers, "TXT_NAME");
    let ghost all = keyed::row_views(table.rows@);
    let ghost f = name_entry(Some(code_at), name_at);
    let mut out: Vec<(String, String)> = Vec::new();
    assert(all.take(0).len() == 0);
    assert(text::views(out@) =~= text::collect(all.take(0), f));
    for i in 0..table.rows.len()
        invariant
            all == keyed::row_views(table.rows@),
            f == name_entry(Some(code_at), name_at),
            text::views(out@) == text::collect(all.take(i as int), f),
    {
        proof {
            text::lemma_collect_step(all, f, i as int);
            assert(all[i as int] == text::views(table.rows@[i as int]@));
        }
        match (
            tables::optional_string(&table.rows[i], Some(code_at)),
            tables::optional_string(&table.rows[i], name_at),
        ) {
            (Some(code), Some(name)) => {
                let entry: (String, String) = (code, name);
                proof {
                    text::lemma_views_push(out@, entry);
                }
                out.push(entry);
            },
            _ => {},
        }
    }
    assert(all.take(table.rows@.len() as int) == all);
    Ok(out)
}

/// The name in the last entry with an identifier.
pub open spec fn last_name(entries: Seq<(Seq<char>, Seq<char>)>, identifier: Seq<char>) -> Option<
    Seq<char>,
>
    decreases entries.len(),
{
    if entries.len() == 0 {
        None
    } else if entries.last().0 == identifier {
        Some(entries.last().1)
    } else {
        last_name(entries.drop_last(), identifier)
    }
}

/// The names of navigation aids by identifier, spelled in upper-case letters.
pub struct NavaidNames {
    map: StringHashMap<String>,
}

impl NavaidNames {
    /// The name of a navigation aid.
    pub closed spec fn name(self, identifier: Seq<char>) -> Option<Seq<char>> {
        crate::matchers::text_at(self.map@, identifier)
    }

    /// No names.
    pub fn new() -> (r: Self)
        ensures
            forall|id: Seq<char>| #[trigger] r.name(id) is None,
    {
        NavaidNames { map: StringHashMap::new() }
    }

    /// Adds the names of entries; of two with one identifier the later one counts.
    pub fn add_entries(&mut self, entries: &Vec<(String, String)>)
        ensures
            forall|id: Seq<char>| #[trigger]
                final(self).name(id) == (match last_name(text::views(entries@), id) {
                    Some(name) => Some(names::upper_pinyin(name)),
                    None => old(self).name(id),
                }),
    {
        let ghost all = text::views(entries@);
        assert(all.take(0).len() == 0);
        for i in 0..entries.len()
            invariant
                all == text::views(entries@),
                forall|id: Seq<char>| #[trigger]
                    self.name(id) == (match last_name(all.take(i as int), id) {
                        Some(name) => Some(names::upper_pinyin(name)),
                        None => old(self).name(id),
                    }),
        {
            let ghost before = *self;
            let spelled: String = names::to_upper_pinyin(entries[i].1.as_str());
            self.map.insert(entries[i].0.clone(), spelled);
            proof {
                let next = all.take(i + 1);
                assert(next.drop_last() == all.take(i as int));
                assert(next.last() == entries@[i as int]@);
                assert forall|id: Seq<char>| #[trigger]
                    self.name(id) == (match last_name(next, id) {
                        Some(name) => Some(names::upper_pinyin(name)),
                        None => old(self).name(id),
                    }) by {
                    assert(before.name(id) == (match last_name(all.take(i as int), id) {
                        Some(name) => Some(names::upper_pinyin(name)),
                        None => old(self).name(id),
                    }));
                }
            }
        }
        assert(all.take(entries@.len() as int) == all);
    }

    /// Adds the names in the bytes of a file, which is written in the GB18030 encoding. A file that
    /// is refused adds none.
    pub fn load_navaid_mapping_from_csv(&mut self, bytes: &[u8]) -> (r: Result<(), TableError>)
        requires
            bytes@.len() <= decode::MAX_DECODED_BYTES,
        ensures
            match tables::csv_table(decode::gb18030_text(bytes@), true) {
                Some(table) => match name_entries(table) {
                    Ok(entries) => {
                        &&& r is Ok
                        &&& forall|id: Seq<char>| #[trigger]
                            final(self).name(id) == (match last_name(entries, id) {
                                Some(name) => Some(names::upper_pinyin(name)),
                                None => old(self).name(id),
                            })
                    },
                    Err(error) => *final(self) == *old(self) && (r matches Err(e) && e@ == error),
                },
                None => *final(self) == *old(self) && (r matches Err(e) && e@
                    == TableError::<Seq<char>>::Unreadable),
            },
    {
        let content: String = decode::decode_gb18030(bytes);
        let table: CsvTable = match tables::read_csv(content.as_str(), true) {
            Some(table) => table,
            None => return Err(TableError::Unreadable),
        };
        match read_name_entries(&table) {
            Ok(entries) => {
                self.add_entries(&entries);
                Ok(())
            },
            Err(error) => Err(error),
        }
    }

    /// The name of a navigation aid.
    pub fn get(&self, identifier: &str) -> (r: Option<String>)
        ensures
            text::opt(r) == self.name(identifier@),
    {
        match self.map.get(identifier) {
            Some(name) => Some(name.clone()),
            None => None,
        }
    }
}

impl Record for VhfNavRow {
    open spec fn key(&self) -> Seq<Seq<char>> {
        seq![self.navaid_identifier@, self.icao_code@]
    }

    fn key_row(&self) -> (r: Vec<String>) {
        let r: Vec<String> = vec![self.navaid_identifier.clone(), self.icao_code.clone()];
        assert(text::views(r@) =~= self.key());
        r
    }
}

/// The start of the query for known navigation aids.
pub open spec fn known_query_head() -> Seq<char> {
    "SELECT vor_identifier, icao_code FROM tbl_vhfnavaids WHERE (vor_identifier, icao_code) IN ("@
}

/// The number of navigation aids that one query is meant to ask for.
pub const QUERY_BATCH: usize = 500;

/// The queries for those of the navigation aids that the table has.
pub fn fetch_existing_queries(rows: &Vec<VhfNavRow>) -> (out: Vec<BoundQuery>)
    ensures
        text::views(out@) == db::row_queries(
            known_query_head(),
            "(?, ?)"@,
            keyed::distinct_rows(records::keys_of(rows@)),
            db::batch_limit(QUERY_BATCH as int, 2),
        ),
{
    let keys: RowSet = records::list_keys(rows);
    db::list_row_queries(
        "SELECT vor_identifier, icao_code FROM tbl_vhfnavaids WHERE (vor_identifier, icao_code) IN (",
        "(?, ?)",
        keys.rows(),
        db::pair_query_batch_size(QUERY_BATCH),
    )
}

/// A navigation aid as it is written to the table.
#[verifier::ext_equal]
pub struct VhfInsertRow<T = String> {
    pub airport_identifier: Option<T>,
    pub area_code: T,
    pub dme_elevation: T,
    pub dme_ident: Option<T>,
    pub dme_latitude: T,
    pub dme_longitude: T,
    pub icao_code: T,
    pub ilsdme_bias: Option<T>,
    pub navaid_class: T,
    pub navaid_frequency: T,
    pub navaid_identifier: T,
    pub navaid_latitude: T,
    pub navaid_longitude: T,
    pub navaid_name: T,
    pub range: T,
    pub station_declination: Option<i64>,
    pub id: T,
}

impl View for VhfInsertRow {
    type V = VhfInsertRow<Seq<char>>;

    open spec fn view(&self) -> Self::V {
        VhfInsertRow {
            airport_identifier: text::opt(self.airport_identifier),
            area_code: self.area_code@,
            dme_elevation: self.dme_elevation@,
            dme_ident: text::opt(self.dme_ident),
            dme_latitude: self.dme_latitude@,
            dme_longitude: self.dme_longitude@,
            icao_code: self.icao_code@,
            ilsdme_bias: text::opt(self.ilsdme_bias),
            navaid_class: self.navaid_class@,
            navaid_frequency: self.navaid_frequency@,
            navaid_identifier: self.navaid_identifier@,
            navaid_latitude: self.navaid_latitude@,
            navaid_longitude: self.navaid_longitude@,
            navaid_name: self.navaid_name@,
            range: self.range@,
            station_declination: self.station_declination,
            id: self.id@,
        }
    }
}

impl Bindable for VhfInsertRow {
    open spec fn cell(&self, variation: Option<u64>, column: Seq<char>) -> Cell<Seq<char>> {
        if column == "area_code"@ {
            Cell::Text(self@.area_code)
        } else if column == "airport_identifier"@ {
            records::text_cell(self@.airport_identifier)
        } else if column == "icao_code"@ {
            Cell::Text(self@.icao_code)
        } else if column == "vor_identifier"@ {
            Cell::Text(self@.navaid_identifier)
        } else if column == "vor_name"@ {
            Cell::Text(self@.navaid_name)
        } else if column == "vor_frequency"@ {
            Cell::Literal(self@.navaid_frequency)
        } else if column == "navaid_class"@ {
            Cell::Text(self@.navaid_class)
        } else if column == "vor_latitude"@ {
            Cell::Literal(self@.navaid_latitude)
        } else if column == "vor_longitude"@ {
            Cell::Literal(self@.navaid_longitude)
        } else if column == "dme_ident"@ {
            records::text_cell(self@.dme_ident)
        } else if column == "dme_latitude"@ {
            Cell::Literal(self@.dme_latitude)
        } else if column == "dme_longitude"@ {
            Cell::Literal(self@.dme_longitude)
        } else if column == "dme_elevation"@ {
            Cell::Literal(self@.dme_elevation)
        } else if column == "ilsdme_bias"@ {
            records::text_cell(self@.ilsdme_bias)
        } else if column == "range"@ {
            Cell::Text(self@.range)
        } else if column == "station_declination"@ {
            records::integer_cell(self.station_declination)
        } else if column == "magnetic_variation"@ {
            records::bits_cell(variation)
        } else if column == "id"@ {
            Cell::Text(self@.id)
        } else {
            Cell::Null
        }
    }

    fn make_cell(&self, variation: Option<u64>, column: &str) -> (r: Cell) {
        if text::same(column, "area_code") {
            Cell::Text(self.area_code.clone())
        } else if text::same(column, "airport_identifier") {
            records::make_text_cell(&self.airport_identifier)
        } else if text::same(column, "icao_code") {
            Cell::Text(self.icao_code.clone())
        } else if text::same(column, "vor_identifier") {
            Cell::Text(self.navaid_identifier.clone())
        } else if text::same(column, "vor_name") {
            Cell::Text(self.navaid_name.clone())
        } else if text::same(column, "vor_frequency") {
            Cell::Literal(self.navaid_frequency.clone())
        } else if text::same(column, "navaid_class") {
            Cell::Text(self.navaid_class.clone())
        } else if text::same(column, "vor_latitude") {
            Cell::Literal(self.navaid_latitude.clone())
        } else if text::same(column, "vor_longitude") {
            Cell::Literal(self.navaid_longitude.clone())
        } else if text::same(column, "dme_ident") {
            records::make_text_cell(&self.dme_ident)
        } else if text::same(column, "dme_latitude") {
            Cell::Literal(self.dme_latitude.clone())
        } else if text::same(column, "dme_longitude") {
            Cell::Literal(self.dme_longitude.clone())
        } else if text::same(column, "dme_elevation") {
            Cell::Literal(self.dme_elevation.clone())
        } else if text::same(column, "ilsdme_bias") {
            records::make_text_cell(&self.ilsdme_bias)
        } else if text::same(column, "range") {
            Cell::Text(self.range.clone())
        } else if text::same(column, "station_declination") {
            records::make_integer_cell(self.station_declination)
        } else if text::same(column, "magnetic_variation") {
            records::make_bits_cell(variation)
        } else if text::same(column, "id") {
            Cell::Text(self.id.clone())
        } else {
            Cell::Null
        }
    }
}

/// The columns of the table, in the order in which they are written.
pub open spec fn insert_columns() -> Seq<Seq<char>> {
    seq![
        "area_code"@,
        "airport_identifier"@,
        "icao_code"@,
        "vor_identifier"@,
        "vor_name"@,
        "vor_frequency"@,
        "navaid_class"@,
        "vor_latitude"@,
        "vor_longitude"@,
        "dme_ident"@,
        "dme_latitude"@,
        "dme_longitude"@,
        "dme_elevation"@,
        "ilsdme_bias"@,
        "range"@,
        "station_declination"@,
        "magnetic_variation"@,
        "id"@,
    ]
}

/// The columns of the table, in the order in which they are written.
pub fn list_insert_columns() -> (r: Vec<String>)
    ensures
        text::views(r@) == insert_columns(),
{
    let r: Vec<String> = vec![
        text::copy("area_code"),
        text::copy("airport_identifier"),
        text::copy("icao_code"),
        text::copy("vor_identifier"),
        text::copy("vor_name"),
        text::copy("vor_frequency"),
        text::copy("navaid_class"),
        text::copy("vor_latitude"),
        text::copy("vor_longitude"),
        text::copy("dme_ident"),
        text::copy("dme_latitude"),
        text::copy("dme_longitude"),
        text::copy("dme_elevation"),
        text::copy("ilsdme_bias"),
        text::copy("range"),
        text::copy("station_declination"),
        text::copy("magnetic_variation"),
        text::copy("id"),
    ];
    assert(text::views(r@) =~= insert_columns());
    r
}

/// The statement that creates the table of VHF navigation aids.
pub fn create_table_statement() -> (r: &'static str)
    ensures
        r@ == "CREATE TABLE IF NOT EXISTS tbl_vhfnavaids (\n                airport_identifier TEXT,\n                area_code TEXT,\n                icao_code TEXT,\n                vor_identifier TEXT,\n                vor_name TEXT,\n                vor_frequency REAL,\n                navaid_class TEXT,\n                vor_latitude REAL,\n                vor_longitude REAL,\n                dme_ident TEXT,\n                dme_latitude REAL,\n                dme_longitude REAL,\n                dme_elevation REAL,\n                ilsdme_bias TEXT,\n                range TEXT,\n                station_declination REAL,\n                magnetic_variation REAL,\n                id TEXT\n            )"@,
{
    "CREATE TABLE IF NOT EXISTS tbl_vhfnavaids (\n                airport_identifier TEXT,\n                area_code TEXT,\n                icao_code TEXT,\n                vor_identifier TEXT,\n                vor_name TEXT,\n                vor_frequency REAL,\n                navaid_class TEXT,\n                vor_latitude REAL,\n                vor_longitude REAL,\n                dme_ident TEXT,\n                dme_latitude REAL,\n                dme_longitude REAL,\n                dme_elevation REAL,\n                ilsdme_bias TEXT,\n                range TEXT,\n                station_declination REAL,\n                magnetic_variation REAL,\n                id TEXT\n            )"
}

/// The statement that inserts a navigation aid.
pub fn build_insert_sql() -> (sql: String)
    ensures
        sql@ == records::fixed_insert("INSERT OR IGNORE"@, "tbl_vhfnavaids"@, insert_columns()),
{
    records::fixed_insert_sql("INSERT OR IGNORE", "tbl_vhfnavaids", &list_insert_columns())
}

/// The name that is written: that of the record, else that of the tables, else the identifier.
pub open spec fn written_name(
    own: Option<Seq<char>>,
    known: Option<Seq<char>>,
    identifier: Seq<char>,
) -> Seq<char> {
    match (own, known) {
        (Some(name), _) => name,
        (None, Some(name)) => name,
        (None, None) => identifier,
    }
}

/// The navigation aid that is written for a record. Only a VOR has a station declination, the
/// rounded magnetic variation.
pub open spec fn vhf_insert(
    row: VhfNavRow<Seq<char>>,
    rounded: i64,
    known: Option<Seq<char>>,
) -> VhfInsertRow<Seq<char>> {
    VhfInsertRow {
        airport_identifier: row.airport_identifier,
        area_code: regions::navaid_area(row.icao_code),
        dme_elevation: row.dme_elevation,
        dme_ident: if row.has_dme_ident {
            Some(row.navaid_identifier)
        } else {
            None
        },
        dme_latitude: row.latitude,
        dme_longitude: row.longitude,
        icao_code: row.icao_code,
        ilsdme_bias: None,
        navaid_class: row.navaid_class,
        navaid_frequency: row.navaid_frequency,
        navaid_identifier: row.navaid_identifier,
        navaid_latitude: row.latitude,
        navaid_longitude: row.longitude,
        navaid_name: written_name(row.navaid_name, known, row.navaid_identifier),
        range: row.range,
        station_declination: if row.navaid_class == "VDHW "@ {
            Some(rounded)
        } else {
            None
        },
        id: row.icao_code + row.navaid_identifier,
    }
}

fn make_insert(row: &VhfNavRow, rounded: i64, names: &NavaidNames) -> (r: VhfInsertRow)
    ensures
        r@ == vhf_insert(row@, rounded, names.name(row.navaid_identifier@)),
{
    let mut id: String = row.icao_code.clone();
    id.append(row.navaid_identifier.as_str());
    let navaid_name: String = match &row.navaid_name {
        Some(name) => name.clone(),
        None => match names.get(row.navaid_identifier.as_str()) {
            Some(name) => name,
            None => row.navaid_identifier.clone(),
        },
    };
    VhfInsertRow {
        airport_identifier: text::copy_opt(&row.airport_identifier),
        area_code: text::copy(regions::navaid_area_code(row.icao_code.as_str())),
        dme_elevation: row.dme_elevation.clone(),
        dme_ident: if row.has_dme_ident {
            Some(row.navaid_identifier.clone())
        } else {
            None
        },
        dme_latitude: row.latitude.clone(),
        dme_longitude: row.longitude.clone(),
        icao_code: row.icao_code.clone(),
        ilsdme_bias: None,
        navaid_class: row.navaid_class.clone(),
        navaid_frequency: row.navaid_frequency.clone(),
        navaid_identifier: row.navaid_identifier.clone(),
        navaid_latitude: row.latitude.clone(),
        navaid_longitude: row.longitude.clone(),
        navaid_name,
        range: row.range.clone(),
        station_declination: if text::same(row.navaid_class.as_str(), "VDHW ") {
            Some(rounded)
        } else {
            None
        },
        id,
    }
}

/// Chooses the navigation aids that are written: those that the table does not have, only the
/// first of those with the same identifier and region.
pub fn process_vhfs_to_db(rows: Vec<VhfNavRow>, existing: &RowSet) -> (out: Vec<VhfNavRow>)
    requires
        existing.wf(),
    ensures
        out@ == records::first_absent(rows@, existing@),
{
    records::retain_first_absent(rows, existing)
}

/// The navigation aids that are written for records, given their rounded magnetic variations.
pub open spec fn vhf_inserts(
    rows: Seq<VhfNavRow>,
    rounded: Seq<i64>,
    names: NavaidNames,
) -> Seq<VhfInsertRow<Seq<char>>> {
    Seq::new(
        rows.len(),
        |i: int| vhf_insert(rows[i]@, rounded[i], names.name(rows[i].navaid_identifier@)),
    )
}

/// Lays out the chosen navigation aids, given their rounded magnetic variations.
pub fn build_vhf_rows(rows: &Vec<VhfNavRow>, rounded: &Vec<i64>, names: &NavaidNames) -> (out: Vec<
    VhfInsertRow,
>)
    requires
        rounded@.len() >= rows@.len(),
    ensures
        text::views(out@) == vhf_inserts(rows@, rounded@, *names),
{
    let ghost goal = vhf_inserts(rows@, rounded@, *names);
    let mut out: Vec<VhfInsertRow> = Vec::new();
    assert(text::views(out@) =~= goal.take(0));
    for i in 0..rows.len()
        invariant
            rounded@.len() >= rows@.len(),
            goal == vhf_inserts(rows@, rounded@, *names),
            text::views(out@) == goal.take(i as int),
    {
        let row: VhfInsertRow = make_insert(&rows[i], rounded[i], names);
        proof {
            text::lemma_views_push(out@, row);
            assert(goal.take(i + 1) =~= goal.take(i as int).push(row@));
        }
        out.push(row);
    }
    assert(goal.take(rows@.len() as int) == goal);
    out
}

/// Every column of the table holds what it is named for.
pub proof fn every_column_holds_what_it_is_named_for(row: VhfInsertRow, variation: Option<u64>)
    ensures
        row.cell(variation, "area_code"@) == Cell::Text(row.area_code@),
        row.cell(variation, "airport_identifier"@) == records::text_cell(text::opt(row.airport_identifier)),
        row.cell(variation, "icao_code"@) == Cell::Text(row.icao_code@),
        row.cell(variation, "vor_identifier"@) == Cell::Text(row.navaid_identifier@),
        row.cell(variation, "vor_name"@) == Cell::Text(row.navaid_name@),
        row.cell(variation, "vor_frequency"@) == Cell::Literal(row.navaid_frequency@),
        row.cell(variation, "navaid_class"@) == Cell::Text(row.navaid_class@),
        row.cell(variation, "vor_latitude"@) == Cell::Literal(row.navaid_latitude@),
        row.cell(variation, "vor_longitude"@) == Cell::Literal(row.navaid_longitude@),
        row.cell(variation, "dme_ident"@) == records::text_cell(text::opt(row.dme_ident)),
        row.cell(variation, "dme_latitude"@) == Cell::Literal(row.dme_latitude@),
        row.cell(variation, "dme_longitude"@) == Cell::Literal(row.dme_longitude@),
        row.cell(variation, "dme_elevation"@) == Cell::Literal(row.dme_elevation@),
        row.cell(variation, "ilsdme_bias"@) == records::text_cell(text::opt(row.ilsdme_bias)),
        row.cell(variation, "range"@) == Cell::Text(row.range@),
        row.cell(variation, "station_declination"@) == records::integer_cell(row.station_declination),
        row.cell(variation, "magnetic_variation"@) == records::bits_cell(variation),
        row.cell(variation, "id"@) == Cell::Text(row.id@),
{
    reveal_strlit("area_code");
    assert("area_code"@.len() == 9);
    reveal_strlit("airport_identifier");
    assert("airport_identifier"@.len() == 18);
    reveal_strlit("icao_code");
    assert("icao_code"@.len() == 9);
    reveal_strlit("vor_identifier");
    assert("vor_identifier"@.len() == 14);
    reveal_strlit("vor_name");
    assert("vor_name"@.len() == 8);
    reveal_strlit("vor_frequency");
    assert("vor_frequency"@.len() == 13);
    reveal_strlit("navaid_class");
    assert("navaid_class"@.len() == 12);
    reveal_strlit("vor_latitude");
    assert("vor_latitude"@.len() == 12);
    reveal_strlit("vor_longitude");
    assert("vor_longitude"@.len() == 13);
    reveal_strlit("dme_ident");
    assert("dme_ident"@.len() == 9);
    reveal_strlit("dme_latitude");
    assert("dme_latitude"@.len() == 12);
    reveal_strlit("dme_longitude");
    assert("dme_longitude"@.len() == 13);
    reveal_strlit("dme_elevation");
    assert("dme_elevation"@.len() == 13);
    reveal_strlit("ilsdme_bias");
    assert("ilsdme_bias"@.len() == 11);
    reveal_strlit("range");
    assert("range"@.len() == 5);
    reveal_strlit("station_declination");
    assert("station_declination"@.len() == 19);
    reveal_strlit("magnetic_variation");
    assert("magnetic_variation"@.len() == 18);
    reveal_strlit("id");
    assert("id"@.len() == 2);
    assert("area_code"@[0] != "icao_code"@[0]);
    assert("navaid_class"@[0] != "vor_latitude"@[0]);
    assert("vor_frequency"@[4] != "vor_longitude"@[4]);
    assert("area_code"@[0] != "dme_ident"@[0]);
    assert("icao_code"@[0] != "dme_ident"@[0]);
    assert("navaid_class"@[0] != "dme_latitude"@[0]);
    assert("vor_latitude"@[0] != "dme_latitude"@[0]);
    assert("vor_frequency"@[0] != "dme_longitude"@[0]);
    assert("vor_longitude"@[0] != "dme_longitude"@[0]);
    assert("vor_frequency"@[0] != "dme_elevation"@[0]);
    assert("vor_longitude"@[0] != "dme_elevation"@[0]);
    assert("dme_longitude"@[4] != "dme_elevation"@[4]);
    assert("airport_identifier"@[0] != "magnetic_variation"@[0]);
}

/// No column of the table is left out, and none is written twice.
pub proof fn every_column_is_written(row: VhfInsertRow, variation: Option<u64>)
    ensures
        insert_columns().len() == 18,
        insert_columns().contains("area_code"@),
        insert_columns().contains("airport_identifier"@),
        insert_columns().contains("icao_code"@),
        insert_columns().contains("vor_identifier"@),
        insert_columns().contains("vor_name"@),
        insert_columns().contains("vor_frequency"@),
        insert_columns().contains("navaid_class"@),
        insert_columns().contains("vor_latitude"@),
        insert_columns().contains("vor_longitude"@),
        insert_columns().contains("dme_ident"@),
        insert_columns().contains("dme_latitude"@),
        insert_columns().contains("dme_longitude"@),
        insert_columns().contains("dme_elevation"@),
        insert_columns().contains("ilsdme_bias"@),
        insert_columns().contains("range"@),
        insert_columns().contains("station_declination"@),
        insert_columns().contains("magnetic_variation"@),
        insert_columns().contains("id"@),
        forall|i: int|
            0 <= i < insert_columns().len() ==> #[trigger] records::bound_row(row, variation, insert_columns())[i]
                == row.cell(variation, insert_columns()[i]),
{
    assert(insert_columns()[0] == "area_code"@);
    assert(insert_columns()[1] == "airport_identifier"@);
    assert(insert_columns()[2] == "icao_code"@);
    assert(insert_columns()[3] == "vor_identifier"@);
    assert(insert_columns()[4] == "vor_name"@);
    assert(insert_columns()[5] == "vor_frequency"@);
    assert(insert_columns()[6] == "navaid_class"@);
    assert(insert_columns()[7] == "vor_latitude"@);
    assert(insert_columns()[8] == "vor_longitude"@);
    assert(insert_columns()[9] == "dme_ident"@);
    assert(insert_columns()[10] == "dme_latitude"@);
    assert(insert_columns()[11] == "dme_longitude"@);
    assert(insert_columns()[12] == "dme_elevation"@);
    assert(insert_columns()[13] == "ilsdme_bias"@);
    assert(insert_columns()[14] == "range"@);
    assert(insert_columns()[15] == "station_declination"@);
    assert(insert_columns()[16] == "magnetic_variation"@);
    assert(insert_columns()[17] == "id"@);
}

/// Names are read from the rows that have both a code and a name, from the columns of those names.
pub proof fn names_are_read_from_their_columns(
    table: (Seq<Seq<char>>, Seq<Seq<Seq<char>>>),
    code: Seq<char>,
    name: Seq<char>,
)
    ensures
        name_entries(table) is Ok <==> tables::column(table.0, "CODE_ID"@) is Some,
        name_entries(table) matches Err(e) ==> e == TableError::MissingColumn("CODE_ID"@),
        name_entries(table) matches Ok(entries) ==> (entries.contains((code, name)) <==> exists|
            i: int,
        |
            0 <= i < table.1.len() && tables::field(
                #[trigger] table.1[i],
                tables::column(table.0, "CODE_ID"@),
            ) == Some(code) && tables::field(
                table.1[i],
                tables::column(table.0, "TXT_NAME"@),
            ) == Some(name)),
{
    if name_entries(table) is Ok {
        let code_at = tables::column(table.0, "CODE_ID"@);
        let name_at = tables::column(table.0, "TXT_NAME"@);
        let f = name_entry(code_at, name_at);
        text::lemma_collect_contains(table.1, f, (code, name));
        assert forall|i: int| 0 <= i < table.1.len() implies (f(i, #[trigger] table.1[i]) == Some(
            (code, name),
        ) <==> tables::field(table.1[i], code_at) == Some(code) && tables::field(
            table.1[i],
            name_at,
        ) == Some(name)) by {}
    }
}

/// The last name that was read for an identifier counts.
pub proof fn the_last_name_of_an_identifier_counts(
    entries: Seq<(Seq<char>, Seq<char>)>,
    identifier: Seq<char>,
    k: int,
)
    requires
        0 <= k < entries.len(),
        entries[k].0 == identifier,
        forall|j: int| k < j < entries.len() ==> (#[trigger] entries[j]).0 != identifier,
    ensures
        last_name(entries, identifier) == Some(entries[k].1),
    decreases entries.len(),
{
    let init = entries.drop_last();
    if k < entries.len() - 1 {
        assert(init[k] == entries[k]);
        assert forall|j: int| k < j < init.len() implies (#[trigger] init[j]).0 != identifier by {
            assert(init[j] == entries[j]);
        }
        the_last_name_of_an_identifier_counts(init, identifier, k);
    }
}

/// An identifier that was not read has no name.
pub proof fn an_identifier_that_was_not_read_has_no_name(
    entries: Seq<(Seq<char>, Seq<char>)>,
    identifier: Seq<char>,
)
    requires
        forall|j: int| 0 <= j < entries.len() ==> (#[trigger] entries[j]).0 != identifier,
    ensures
        last_name(entries, identifier) is None,
    decreases entries.len(),
{
    if entries.len() > 0 {
        let init = entries.drop_last();
        assert forall|j: int| 0 <= j < init.len() implies (#[trigger] init[j]).0 != identifier by {
            assert(init[j] == entries[j]);
        }
        assert(entries[entries.len() - 1].0 != identifier);
        an_identifier_that_was_not_read_has_no_name(init, identifier);
    }
}

/// A station is written with what was read of it. It gets the position of its distance measuring
/// equipment from its own, a declination only where it is a VOR, and its identifier as the
/// equipment's only where it is marked.
pub proof fn a_station_is_written_as_it_was_read(
    rows: Seq<VhfNavRow>,
    rounded: Seq<i64>,
    names: NavaidNames,
    i: int,
)
    requires
        0 <= i < rows.len(),
        rounded.len() >= rows.len(),
    ensures
        ({
            let row = rows[i];
            let written = vhf_inserts(rows, rounded, names)[i];
            &&& vhf_inserts(rows, rounded, names).len() == rows.len()
            &&& written.airport_identifier == text::opt(row.airport_identifier)
            &&& row.icao_code@ == "VH"@ ==> written.area_code == "PAC"@
            &&& row.icao_code@ != "VH"@ ==> written.area_code == "EEU"@
            &&& written.dme_elevation == row.dme_elevation@
            &&& row.has_dme_ident ==> written.dme_ident == Some(row.navaid_identifier@)
            &&& !row.has_dme_ident ==> written.dme_ident is None
            &&& written.dme_latitude == row.latitude@
            &&& written.dme_longitude == row.longitude@
            &&& written.navaid_latitude == row.latitude@
            &&& written.navaid_longitude == row.longitude@
            &&& written.icao_code == row.icao_code@
            &&& written.ilsdme_bias is None
            &&& written.navaid_class == row.navaid_class@
            &&& written.navaid_frequency == row.navaid_frequency@
            &&& written.navaid_identifier == row.navaid_identifier@
            &&& written.range == row.range@
            &&& row.navaid_class@ == "VDHW "@ ==> written.station_declination == Some(rounded[i])
            &&& row.navaid_class@ != "VDHW "@ ==> written.station_declination is None
            &&& written.id == row.icao_code@ + row.navaid_identifier@
            &&& row.navaid_name matches Some(own) ==> written.navaid_name == own@
            &&& row.navaid_name is None ==> written.navaid_name == (match names.name(
                row.navaid_identifier@,
            ) {
                Some(known) => known,
                None => row.navaid_identifier@,
            })
        }),
{
}

/// A station is known by its identifier and its ICAO code.
pub proof fn a_station_is_known_by_identifier_and_code(row: VhfNavRow)
    ensures
        row.key() == seq![row.navaid_identifier@, row.icao_code@],
{
}

/// Known stations are asked for by identifier and ICAO code, in the order of their keys.
pub proof fn known_rows_are_asked_for_by_their_keys()
    ensures
        known_query_head() == "SELECT vor_identifier, icao_code FROM tbl_vhfnavaids WHERE (vor_identifier, icao_code) IN ("@,
{
}

/// Every field of a `VhfInsertRow` is seen under its own name.
pub proof fn every_field_of_vhf_insert_row_is_seen(it: VhfInsertRow)
    ensures
        it@.airport_identifier == text::opt(it.airport_identifier),
        it@.area_code == it.area_code@,
        it@.dme_elevation == it.dme_elevation@,
        it@.dme_ident == text::opt(it.dme_ident),
        it@.dme_latitude == it.dme_latitude@,
        it@.dme_longitude == it.dme_longitude@,
        it@.icao_code == it.icao_code@,
        it@.ilsdme_bias == text::opt(it.ilsdme_bias),
        it@.navaid_class == it.navaid_class@,
        it@.navaid_frequency == it.navaid_frequency@,
        it@.navaid_identifier == it.navaid_identifier@,
        it@.navaid_latitude == it.navaid_latitude@,
        it@.navaid_longitude == it.navaid_longitude@,
        it@.navaid_name == it.navaid_name@,
        it@.range == it.range@,
        it@.station_declination == it.station_declination,
        it@.id == it.id@,
{
}

} // verus!
