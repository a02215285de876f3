//! Glide slopes: joining them with their localizers, leaving out known ones, laying out the rest.

use crate::db;
use crate::db::{BoundQuery, Cell};
use crate::keyed;
use crate::keyed::RowSet;
use crate::names;
use crate::numeric;
use crate::parsers;
use crate::records;
use crate::records::{Bindable, Record};
use crate::regions;
use crate::text;
use crate::text::Blank;
use vstd::prelude::*;

verus! {

/// The category that the lower-case text of a category gives: the number of its Roman numeral
/// behind `cat`, else the lowest.
pub open spec fn category(lower: Seq<char>) -> i64 {
    if !text::occurs(lower, "cat"@) {
        1
    } else if text::occurs(lower, "iii"@) {
        3
    } else if text::occurs(lower, "ii"@) {
        2
    } else {
        1
    }
}

/// Reads a category from its lower-case text.
pub fn category_of(lower: &str) -> (r: i64)
    ensures
        r == category(lower@),
{
    if !text::contains_text(lower, "cat") {
        1
    } else if text::contains_text(lower, "iii") {
        3
    } else if text::contains_text(lower, "ii") {
        2
    } else {
        1
    }
}

/// Reads a category, whatever the case of its letters.
pub fn classify_ils_category(value: &str) -> (r: i64)
    ensures
        r == category(names::lower_text(value@)),
{
    let lower: String = names::to_lower_text(value);
    category_of(lower.as_str())
}

/// A localizer: what it is found by, and its position and category.
#[verifier::ext_equal]
pub struct Localizer<T = String> {
    pub frequency: T,
    pub identifier: T,
    pub airport: T,
    pub latitude: T,
    pub longitude: T,
    pub category: T,
}

impl View for Localizer {
    type V = Localizer<Seq<char>>;

    open spec fn view(&self) -> Self::V {
        Localizer {
            frequency: self.frequency@,
            identifier: self.identifier@,
            airport: self.airport@,
            latitude: self.latitude@,
            longitude: self.longitude@,
            category: self.category@,
        }
    }
}

/// The localizer on a line.
pub open spec fn localizer(line: Seq<char>) -> Option<Localizer<Seq<char>>> {
    let w = text::words(Blank::Unicode, line);
    if w.len() >= 12 && w[0] == "4"@ && numeric::float_literal(w[1]) && numeric::float_literal(
        w[2],
    ) {
        Some(
            Localizer {
                frequency: w[4],
                identifier: w[7],
                airport: w[8],
                latitude: w[1],
                longitude: w[2],
                category: w[11],
            },
        )
    } else {
        None
    }
}

/// The localizers, line by line.
pub open spec fn localizer_reader() -> spec_fn(int, Seq<char>) -> Option<Localizer<Seq<char>>> {
    |i: int, line: Seq<char>| localizer(line)
}

fn parse_localizer(line: &str) -> (r: Option<Localizer>)
    ensures
        text::opt(r) == localizer(line@),
{
    let w: Vec<String> = text::split_words(Blank::Unicode, &text::chars_of(line));
    let ghost v = text::views(w@);
    assert(v == text::words(Blank::Unicode, line@));
    assert(forall|k: int| 0 <= k < w@.len() ==> v[k] == w@[k]@);
    if w.len() < 12 || !text::same(w[0].as_str(), "4") {
        return None;
    }
    if !numeric::is_float_literal(w[1].as_str()) || !numeric::is_float_literal(w[2].as_str()) {
        return None;
    }
    Some(
        Localizer {
            frequency: w[4].clone(),
            identifier: w[7].clone(),
            airport: w[8].clone(),
            latitude: w[1].clone(),
            longitude: w[2].clone(),
            category: w[11].clone(),
        },
    )
}

/// Reads the localizers of a file, given line by line.
pub fn parse_localizers(lines: &Vec<String>) -> (out: Vec<Localizer>)
    ensures
        text::views(out@) == text::collect(text::views(lines@), localizer_reader()),
{
    let mut out: Vec<Localizer> = Vec::new();
    let ghost all = text::views(lines@);
    let ghost f = localizer_reader();
    assert(all.take(0).len() == 0);
    assert(text::views(out@) =~= text::collect(all.take(0), f));
    for i in 0..lines.len()
        invariant
            all == text::views(lines@),
            f == localizer_reader(),
            text::views(out@) == text::collect(all.take(i as int), f),
    {
        proof {
            text::lemma_collect_step(all, f, i as int);
            assert(all[i as int] == lines@[i as int]@);
        }
        match parse_localizer(lines[i].as_str()) {
            Some(row) => {
                proof {
                    text::lemma_views_push(out@, row);
                }
                out.push(row);
            },
            None => {},
        }
    }
    assert(all.take(lines@.len() as int) == all);
    out
}

/// The last localizer with a frequency, an identifier and an airport.
pub open spec fn matching_localizer(
    localizers: Seq<Localizer<Seq<char>>>,
    frequency: Seq<char>,
    identifier: Seq<char>,
    airport: Seq<char>,
) -> Option<Localizer<Seq<char>>>
    decreases localizers.len(),
{
    if localizers.len() == 0 {
        None
    } else if localizers.last().frequency == frequency && localizers.last().identifier
        == identifier && localizers.last().airport == airport {
        Some(localizers.last())
    } else {
        matching_localizer(localizers.drop_last(), frequency, identifier, airport)
    }
}

fn find_localizer(localizers: &Vec<Localizer>, frequency: &str, identifier: &str, airport: &str) -> (r:
    Option<usize>)
    ensures
        match r {
            Some(i) => i < localizers@.len() && matching_localizer(
                text::views(localizers@),
                frequency@,
                identifier@,
                airport@,
            ) == Some(localizers@[i as int]@),
            None => matching_localizer(
                text::views(localizers@),
                frequency@,
                identifier@,
                airport@,
            ) is None,
        },
{
    let ghost all = text::views(localizers@);
    let mut n: usize = localizers.len();
    assert(all.take(n as int) == all);
    while n > 0
        invariant
            n <= localizers@.len(),
            all == text::views(localizers@),
            matching_localizer(all, frequency@, identifier@, airport@) == matching_localizer(
                all.take(n as int),
                frequency@,
                identifier@,
                airport@,
            ),
        decreases n,
    {
        assert(all.take(n as int).last() == localizers@[n - 1]@);
        assert(all.take(n as int).drop_last() == all.take(n - 1));
        if text::same(localizers[n - 1].frequency.as_str(), frequency) && text::same(
            localizers[n - 1].identifier.as_str(),
            identifier,
        ) && text::same(localizers[n - 1].airport.as_str(), airport) {
            return Some(n - 1);
        }
        n = n - 1;
    }
    None
}

/// A glide slope joined with its localizer. Angle (in hundredths of a degree) and true bearing
/// are checked literals.
#[verifier::ext_equal]
pub struct GsPendingRow<T = String> {
    pub airport_identifier: T,
    pub angle: T,
    pub gs_elevation: i64,
    pub gs_latitude: T,
    pub gs_longitude: T,
    pub icao_code: T,
    pub category: i64,
    pub llz_frequency: T,
    pub llz_identifier: T,
    pub llz_latitude: T,
    pub llz_longitude: T,
    pub true_bearing: T,
    pub runway_identifier: T,
}

impl View for GsPendingRow {
    type V = GsPendingRow<Seq<char>>;

    open spec fn view(&self) -> Self::V {
        GsPendingRow {
            airport_identifier: self.airport_identifier@,
            angle: self.angle@,
            gs_elevation: self.gs_elevation,
            gs_latitude: self.gs_latitude@,
            gs_longitude: self.gs_longitude@,
            icao_code: self.icao_code@,
            category: self.category,
            llz_frequency: self.llz_frequency@,
            llz_identifier: self.llz_identifier@,
            llz_latitude: self.llz_latitude@,
            llz_longitude: self.llz_longitude@,
            true_bearing: self.true_bearing@,
            runway_identifier: self.runway_identifier@,
        }
    }
}

impl Record for GsPendingRow {
    open spec fn key(&self) -> Seq<Seq<char>> {
        seq![self.airport_identifier@, self.runway_identifier@, self.llz_identifier@]
    }

    fn key_row(&self) -> (r: Vec<String>) {
        let r: Vec<String> = vec![
            self.airport_identifier.clone(),
            self.runway_identifier.clone(),
            self.llz_identifier.clone(),
        ];
        assert(text::views(r@) =~= self.key());
        r
    }
}

/// The glide slope on a line, joined with its localizer. The seventh word holds the angle in three
/// characters, then the true bearing.
pub open spec fn glide_slope(
    line: Seq<char>,
    localizers: Seq<Localizer<Seq<char>>>,
) -> Option<GsPendingRow<Seq<char>>> {
    let w = text::words(Blank::Unicode, line);
    if {
        &&& w.len() >= 12
        &&& w[0] == "6"@
        &&& w[6].len() >= 4
        &&& numeric::signed(w[3]) is Some
        &&& numeric::float_literal(w[1])
        &&& numeric::float_literal(w[2])
        &&& numeric::float_literal(w[6].take(3))
        &&& numeric::float_literal(w[6].skip(3))
        &&& w[4].len() >= 4
        &&& numeric::float_literal(parsers::vhf_frequency(w[4]))
    } {
        match matching_localizer(localizers, w[4], w[7], w[8]) {
            Some(found) => Some(
                GsPendingRow {
                    airport_identifier: w[8],
                    angle: w[6].take(3),
                    gs_elevation: numeric::signed(w[3])->0,
                    gs_latitude: w[1],
                    gs_longitude: w[2],
                    icao_code: w[9],
                    category: category(names::lower_text(found.category)),
                    llz_frequency: parsers::vhf_frequency(w[4]),
                    llz_identifier: w[7],
                    llz_latitude: found.latitude,
                    llz_longitude: found.longitude,
                    true_bearing: w[6].skip(3),
                    runway_identifier: "RW"@ + w[10],
                },
            ),
            None => None,
        }
    } else {
        None
    }
}

/// The glide slopes, line by line.
pub open spec fn glide_slope_reader(localizers: Seq<Localizer<Seq<char>>>) -> spec_fn(
    int,
    Seq<char>,
) -> Option<GsPendingRow<Seq<char>>> {
    |i: int, line: Seq<char>| glide_slope(line, localizers)
}

fn parse_glide_slope(line: &str, localizers: &Vec<Localizer>) -> (r: Option<GsPendingRow>)
    ensures
        text::opt(r) == glide_slope(line@, text::views(localizers@)),
{
    let w: Vec<String> = text::split_words(Blank::Unicode, &text::chars_of(line));
    let ghost v = text::views(w@);
    assert(v == text::words(Blank::Unicode, line@));
    assert(forall|k: int| 0 <= k < w@.len() ==> v[k] == w@[k]@);
    if w.len() < 12 || !text::same(w[0].as_str(), "6") {
        return None;
    }
    let found: usize = match find_localizer(
        localizers,
        w[4].as_str(),
        w[7].as_str(),
        w[8].as_str(),
    ) {
        Some(position) => position,
        None => return None,
    };
    let info: Vec<char> = text::chars_of(w[6].as_str());
    if info.len() < 4 {
        return None;
    }
    let angle: String = text::text_of(&info, 0, 3);
    let true_bearing: String = text::text_of(&info, 3, info.len());
    assert(angle@ == w@[6]@.take(3));
    assert(true_bearing@ == w@[6]@.skip(3));
    let gs_elevation: i64 = match numeric::parse_signed(w[3].as_str()) {
        Some(value) => value,
        None => return None,
    };
    if !numeric::is_float_literal(w[1].as_str()) || !numeric::is_float_literal(w[2].as_str())
        || !numeric::is_float_literal(angle.as_str()) || !numeric::is_float_literal(
        true_bearing.as_str(),
    ) {
        return None;
    }
    let llz_frequency: String = match parsers::parse_frequency(w[4].as_str()) {
        Some(frequency) => frequency,
        None => return None,
    };
    let mut runway_identifier: String = text::copy("RW");
    runway_identifier.append(w[10].as_str());
    Some(
        GsPendingRow {
            airport_identifier: w[8].clone(),
            angle,
            gs_elevation,
            gs_latitude: w[1].clone(),
            gs_longitude: w[2].clone(),
            icao_code: w[9].clone(),
            category: classify_ils_category(localizers[found].category.as_str()),
            llz_frequency,
            llz_identifier: w[7].clone(),
            llz_latitude: localizers[found].latitude.clone(),
            llz_longitude: localizers[found].longitude.clone(),
            true_bearing,
            runway_identifier,
        },
    )
}

/// The glide slopes of a file: those lines that have a localizer anywhere in the file.
pub open spec fn gs_rows(lines: Seq<Seq<char>>) -> Seq<GsPendingRow<Seq<char>>> {
    text::collect(lines, glide_slope_reader(text::collect(lines, localizer_reader())))
}

/// Reads the glide slopes of a file, given line by line.
pub fn parse_gs_rows(lines: &Vec<String>) -> (out: Vec<GsPendingRow>)
    ensures
        text::views(out@) == gs_rows(text::views(lines@)),
{
    let localizers: Vec<Localizer> = parse_localizers(lines);
    let mut out: Vec<GsPendingRow> = Vec::new();
    let ghost all = text::views(lines@);
    let ghost f = glide_slope_reader(text::views(localizers@));
    assert(all.take(0).len() == 0);
    assert(text::views(out@) =~= text::collect(all.take(0), f));
    for i in 0..lines.len()
        invariant
            all == text::views(lines@),
            f == glide_slope_reader(text::views(localizers@)),
            text::views(out@) == text::collect(all.take(i as int), f),
    {
        proof {
            text::lemma_collect_step(all, f, i as int);
            assert(all[i as int] == lines@[i as int]@);
        }
        match parse_glide_slope(lines[i].as_str(), &localizers) {
            Some(row) => {
                proof {
                    text::lemma_views_push(out@, row);
                }
                out.push(row);
            },
            None => {},
        }
    }
    assert(all.take(lines@.len() as int) == all);
    out
}

/// The start of the query for known glide slopes.
pub open spec fn known_query_head() -> Seq<char> {
    "SELECT airport_identifier, runway_identifier, llz_identifier FROM tbl_localizers_glideslopes WHERE (airport_identifier, runway_identifier, llz_identifier) IN ("@
}

/// The number of glide slopes that one query is meant to ask for.
pub const QUERY_BATCH: usize = 300;

/// The queries for those of the glide slopes that the table has.
pub fn fetch_existing_queries(rows: &Vec<GsPendingRow>) -> (out: Vec<BoundQuery>)
    ensures
        text::views(out@) == db::row_queries(
            known_query_head(),
            "(?, ?, ?)"@,
            keyed::distinct_rows(records::keys_of(rows@)),
            db::batch_limit(QUERY_BATCH as int, 3),
        ),
{
    let keys: RowSet = records::list_keys(rows);
    db::list_row_queries(
        "SELECT airport_identifier, runway_identifier, llz_identifier FROM tbl_localizers_glideslopes WHERE (airport_identifier, runway_identifier, llz_identifier) IN (",
        "(?, ?, ?)",
        keys.rows(),
        db::triple_query_batch_size(QUERY_BATCH),
    )
}

/// Chooses the glide slopes that are written: those that the table does not have.
pub fn process_ils_gs_to_db(rows: Vec<GsPendingRow>, existing: &RowSet) -> (out: Vec<GsPendingRow>)
    requires
        existing.wf(),
    ensures
        out@ == rows@.filter(records::absent(existing@)),
{
    records::retain_absent(rows, existing)
}

/// What is computed for a glide slope: its angle in degrees, the magnetic bearing of the localizer
/// and the magnetic declination there.
#[derive(Clone, Copy, PartialEq, Eq, Debug, Structural)]
pub struct GsMeasure {
    pub angle: u64,
    pub bearing: u64,
    pub declination: u64,
}

/// The bit pattern of the width of a localizer, three degrees.
pub const LOCALIZER_WIDTH: u64 = 0x4008_0000_0000_0000;

/// A glide slope as it is written to the table.
#[verifier::ext_equal]
pub struct GsInsertRow<T = String> {
    pub airport_identifier: T,
    pub area_code: T,
    pub gs_angle: u64,
    pub gs_elevation: i64,
    pub gs_latitude: T,
    pub gs_longitude: T,
    pub icao_code: T,
    pub ils_mls_gls_category: T,
    pub llz_bearing: u64,
    pub llz_frequency: T,
    pub llz_identifier: T,
    pub llz_latitude: T,
    pub llz_longitude: T,
    pub llz_width: u64,
    pub runway_identifier: T,
    pub station_declination: u64,
    pub id: T,
}

impl View for GsInsertRow {
    type V = GsInsertRow<Seq<char>>;

    open spec fn view(&self) -> Self::V {
        GsInsertRow {
            airport_identifier: self.airport_identifier@,
            area_code: self.area_code@,
            gs_angle: self.gs_angle,
            gs_elevation: self.gs_elevation,
            gs_latitude: self.gs_latitude@,
            gs_longitude: self.gs_longitude@,
            icao_code: self.icao_code@,
            ils_mls_gls_category: self.ils_mls_gls_category@,
            llz_bearing: self.llz_bearing,
            llz_frequency: self.llz_frequency@,
            llz_identifier: self.llz_identifier@,
            llz_latitude: self.llz_latitude@,
            llz_longitude: self.llz_longitude@,
            llz_width: self.llz_width,
            runway_identifier: self.runway_identifier@,
            station_declination: self.station_declination,
            id: self.id@,
        }
    }
}

impl Bindable for GsInsertRow {
    open spec fn cell(&self, variation: Option<u64>, column: Seq<char>) -> Cell<Seq<char>> {
        if column == "area_code"@ {
            Cell::Text(self@.area_code)
        } else if column == "icao_code"@ {
            Cell::Text(self@.icao_code)
        } else if column == "airport_identifier"@ {
            Cell::Text(self@.airport_identifier)
        } else if column == "runway_identifier"@ {
            Cell::Text(self@.runway_identifier)
        } else if column == "llz_identifier"@ {
            Cell::Text(self@.llz_identifier)
        } else if column == "llz_latitude"@ {
            Cell::Literal(self@.llz_latitude)
        } else if column == "llz_longitude"@ {
            Cell::Literal(self@.llz_longitude)
        } else if column == "llz_frequency"@ {
            Cell::Literal(self@.llz_frequency)
        } else if column == "llz_bearing"@ {
            Cell::Bits(self.llz_bearing)
        } else if column == "llz_width"@ {
            Cell::Bits(self.llz_width)
        } else if column == "ils_mls_gls_category"@ {
            Cell::Text(self@.ils_mls_gls_category)
        } else if column == "gs_latitude"@ {
            Cell::Literal(self@.gs_latitude)
        } else if column == "gs_longitude"@ {
            Cell::Literal(self@.gs_longitude)
        } else if column == "gs_angle"@ {
            Cell::Bits(self.gs_angle)
        } else if column == "gs_elevation"@ {
            Cell::Integer(self.gs_elevation)
        } else if column == "station_declination"@ {
            Cell::Bits(self.station_declination)
        } else if column == "id"@ {
            Cell::Text(self@.id)
        } else {
            Cell::Null
        }
    }

    fn make_cell(&self, variation: Option<u64>, column: &str) -> (r: Cell) {
        if text::same(column, "area_code") {
            Cell::Text(self.area_code.clone())
        } else if text::same(column, "icao_code") {
            Cell::Text(self.icao_code.clone())
        } else if text::same(column, "airport_identifier") {
            Cell::Text(self.airport_identifier.clone())
        } else if text::same(column, "runway_identifier") {
            Cell::Text(self.runway_identifier.clone())
        } else if text::same(column, "llz_identifier") {
            Cell::Text(self.llz_identifier.clone())
        } else if text::same(column, "llz_latitude") {
            Cell::Literal(self.llz_latitude.clone())
        } else if text::same(column, "llz_longitude") {
            Cell::Literal(self.llz_longitude.clone())
        } else if text::same(column, "llz_frequency") {
            Cell::Literal(self.llz_frequency.clone())
        } else if text::same(column, "llz_bearing") {
            Cell::Bits(self.llz_bearing)
        } else if text::same(column, "llz_width") {
            Cell::Bits(self.llz_width)
        } else if text::same(column, "ils_mls_gls_category") {
            Cell::Text(self.ils_mls_gls_category.clone())
        } else if text::same(column, "gs_latitude") {
            Cell::Literal(self.gs_latitude.clone())
        } else if text::same(column, "gs_longitude") {
            Cell::Literal(self.gs_longitude.clone())
        } else if text::same(column, "gs_angle") {
            Cell::Bits(self.gs_angle)
        } else if text::same(column, "gs_elevation") {
            Cell::Integer(self.gs_elevation)
        } else if text::same(column, "station_declination") {
            Cell::Bits(self.station_declination)
        } else if text::same(column, "id") {
            Cell::Text(self.id.clone())
        } else {
            Cell::Null
        }
    }
}

/// The columns of the table, in the order in which they are written.
pub open spec fn insert_columns() -> Seq<Seq<char>> {
    seq![
        "area_code"@,
        "icao_code"@,
        "airport_identifier"@,
        "runway_identifier"@,
        "llz_identifier"@,
        "llz_latitude"@,
        "llz_longitude"@,
        "llz_frequency"@,
        "llz_bearing"@,
        "llz_width"@,
        "ils_mls_gls_category"@,
        "gs_latitude"@,
        "gs_longitude"@,
        "gs_angle"@,
        "gs_elevation"@,
        "station_declination"@,
        "id"@,
    ]
}

/// The columns of the table, in the order in which they are written.
pub fn list_insert_columns() -> (r: Vec<String>)
    ensures
        text::views(r@) == insert_columns(),
{
    let r: Vec<String> = vec![
        text::copy("area_code"),
        text::copy("icao_code"),
        text::copy("airport_identifier"),
        text::copy("runway_identifier"),
        text::copy("llz_identifier"),
        text::copy("llz_latitude"),
        text::copy("llz_longitude"),
        text::copy("llz_frequency"),
        text::copy("llz_bearing"),
        text::copy("llz_width"),
        text::copy("ils_mls_gls_category"),
        text::copy("gs_latitude"),
        text::copy("gs_longitude"),
        text::copy("gs_angle"),
        text::copy("gs_elevation"),
        text::copy("station_declination"),
        text::copy("id"),
    ];
    assert(text::views(r@) =~= insert_columns());
    r
}

/// The statement that creates the table of glide slopes.
pub fn create_table_statement() -> (r: &'static str)
    ensures
        r@ == "CREATE TABLE IF NOT EXISTS tbl_localizers_glideslopes (\n                area_code TEXT,\n                icao_code TEXT,\n                airport_identifier TEXT,\n                runway_identifier TEXT,\n                llz_identifier TEXT,\n                llz_latitude REAL,\n                llz_longitude REAL,\n                llz_frequency REAL,\n                llz_bearing REAL,\n                llz_width REAL,\n                ils_mls_gls_category TEXT,\n                gs_latitude REAL,\n                gs_longitude REAL,\n                gs_angle REAL,\n                gs_elevation INTEGER,\n                station_declination REAL,\n                id TEXT\n            )"@,
{
    "CREATE TABLE IF NOT EXISTS tbl_localizers_glideslopes (\n                area_code TEXT,\n                icao_code TEXT,\n                airport_identifier TEXT,\n                runway_identifier TEXT,\n                llz_identifier TEXT,\n                llz_latitude REAL,\n                llz_longitude REAL,\n                llz_frequency REAL,\n                llz_bearing REAL,\n                llz_width REAL,\n                ils_mls_gls_category TEXT,\n                gs_latitude REAL,\n                gs_longitude REAL,\n                gs_angle REAL,\n                gs_elevation INTEGER,\n                station_declination REAL,\n                id TEXT\n            )"
}

/// The statement that inserts a glide slope.
pub fn build_insert_sql() -> (sql: String)
    ensures
        sql@ == records::fixed_insert(
            "INSERT OR IGNORE"@,
            "tbl_localizers_glideslopes"@,
            insert_columns(),
        ),
{
    records::fixed_insert_sql(
        "INSERT OR IGNORE",
        "tbl_localizers_glideslopes",
        &list_insert_columns(),
    )
}

/// The digit of a category.
pub open spec fn category_text(number: i64) -> Seq<char> {
    if number == 3 {
        "3"@
    } else if number == 2 {
        "2"@
    } else {
        "1"@
    }
}

/// The glide slope that is written for a row.
pub open spec fn gs_insert(row: GsPendingRow<Seq<char>>, measure: GsMeasure) -> GsInsertRow<
    Seq<char>,
> {
    GsInsertRow {
        airport_identifier: row.airport_identifier,
        area_code: regions::navaid_area(row.icao_code),
        gs_angle: measure.angle,
        gs_elevation: row.gs_elevation,
        gs_latitude: row.gs_latitude,
        gs_longitude: row.gs_longitude,
        icao_code: row.icao_code,
        ils_mls_gls_category: category_text(row.category),
        llz_bearing: measure.bearing,
        llz_frequency: row.llz_frequency,
        llz_identifier: row.llz_identifier,
        llz_latitude: row.llz_latitude,
        llz_longitude: row.llz_longitude,
        llz_width: LOCALIZER_WIDTH,
        runway_identifier: row.runway_identifier,
        station_declination: measure.declination,
        id: row.airport_identifier + row.icao_code + row.llz_identifier,
    }
}

fn make_insert(row: &GsPendingRow, measure: GsMeasure) -> (r: GsInsertRow)
    ensures
        r@ == gs_insert(row@, measure),
{
    let mut id: String = row.airport_identifier.clone();
    id.append(row.icao_code.as_str());
    id.append(row.llz_identifier.as_str());
    GsInsertRow {
        airport_identifier: row.airport_identifier.clone(),
        area_code: text::copy(regions::navaid_area_code(row.icao_code.as_str())),
        gs_angle: measure.angle,
        gs_elevation: row.gs_elevation,
        gs_latitude: row.gs_latitude.clone(),
        gs_longitude: row.gs_longitude.clone(),
        icao_code: row.icao_code.clone(),
        ils_mls_gls_category: if row.category == 3 {
            text::copy("3")
        } else if row.category == 2 {
            text::copy("2")
        } else {
            text::copy("1")
        },
        llz_bearing: measure.bearing,
        llz_frequency: row.llz_frequency.clone(),
        llz_identifier: row.llz_identifier.clone(),
        llz_latitude: row.llz_latitude.clone(),
        llz_longitude: row.llz_longitude.clone(),
        llz_width: LOCALIZER_WIDTH,
        runway_identifier: row.runway_identifier.clone(),
        station_declination: measure.declination,
        id,
    }
}

/// The glide slopes that are written, given what was computed for each.
pub open spec fn gs_inserts(rows: Seq<GsPendingRow>, measures: Seq<GsMeasure>) -> Seq<
    GsInsertRow<Seq<char>>,
> {
    Seq::new(rows.len(), |i: int| gs_insert(rows[i]@, measures[i]))
}

/// Lays out the chosen glide slopes, given what was computed for each.
pub fn build_gs_rows(rows: &Vec<GsPendingRow>, measures: &Vec<GsMeasure>) -> (out: Vec<GsInsertRow>)
    requires
        measures@.len() >= rows@.len(),
    ensures
        text::views(out@) == gs_inserts(rows@, measures@),
{
    let ghost goal = gs_inserts(rows@, measures@);
    let mut out: Vec<GsInsertRow> = Vec::new();
    assert(text::views(out@) =~= goal.take(0));
    for i in 0..rows.len()
        invariant
            measures@.len() >= rows@.len(),
            goal == gs_inserts(rows@, measures@),
            text::views(out@) == goal.take(i as int),
    {
        let row: GsInsertRow = make_insert(&rows[i], measures[i]);
        proof {
            text::lemma_views_push(out@, row);
            assert(goal.take(i + 1) =~= goal.take(i as int).push(row@));
        }
        out.push(row);
    }
    assert(goal.take(rows@.len() as int) == goal);
    out
}

/// Every column of the table holds what it is named for.
pub proof fn every_column_holds_what_it_is_named_for(row: GsInsertRow, variation: Option<u64>)
    ensures
        row.cell(variation, "area_code"@) == Cell::Text(row.area_code@),
        row.cell(variation, "icao_code"@) == Cell::Text(row.icao_code@),
        row.cell(variation, "airport_identifier"@) == Cell::Text(row.airport_identifier@),
        row.cell(variation, "runway_identifier"@) == Cell::Text(row.runway_identifier@),
        row.cell(variation, "llz_identifier"@) == Cell::Text(row.llz_identifier@),
        row.cell(variation, "llz_latitude"@) == Cell::Literal(row.llz_latitude@),
        row.cell(variation, "llz_longitude"@) == Cell::Literal(row.llz_longitude@),
        row.cell(variation, "llz_frequency"@) == Cell::Literal(row.llz_frequency@),
        row.cell(variation, "llz_bearing"@) == Cell::<Seq<char>>::Bits(row.llz_bearing),
        row.cell(variation, "llz_width"@) == Cell::<Seq<char>>::Bits(row.llz_width),
        row.cell(variation, "ils_mls_gls_category"@) == Cell::Text(row.ils_mls_gls_category@),
        row.cell(variation, "gs_latitude"@) == Cell::Literal(row.gs_latitude@),
        row.cell(variation, "gs_longitude"@) == Cell::Literal(row.gs_longitude@),
        row.cell(variation, "gs_angle"@) == Cell::<Seq<char>>::Bits(row.gs_angle),
        row.cell(variation, "gs_elevation"@) == Cell::<Seq<char>>::Integer(row.gs_elevation),
        row.cell(variation, "station_declination"@) == Cell::<Seq<char>>::Bits(row.station_declination),
        row.cell(variation, "id"@) == Cell::Text(row.id@),
{
    reveal_strlit("area_code");
    assert("area_code"@.len() == 9);
    reveal_strlit("icao_code");
    assert("icao_code"@.len() == 9);
    reveal_strlit("airport_identifier");
    assert("airport_identifier"@.len() == 18);
    reveal_strlit("runway_identifier");
    assert("runway_identifier"@.len() == 17);
    reveal_strlit("llz_identifier");
    assert("llz_identifier"@.len() == 14);
    reveal_strlit("llz_latitude");
    assert("llz_latitude"@.len() == 12);
    reveal_strlit("llz_longitude");
    assert("llz_longitude"@.len() == 13);
    reveal_strlit("llz_frequency");
    assert("llz_frequency"@.len() == 13);
    reveal_strlit("llz_bearing");
    assert("llz_bearing"@.len() == 11);
    reveal_strlit("llz_width");
    assert("llz_width"@.len() == 9);
    reveal_strlit("ils_mls_gls_category");
    assert("ils_mls_gls_category"@.len() == 20);
    reveal_strlit("gs_latitude");
    assert("gs_latitude"@.len() == 11);
    reveal_strlit("gs_longitude");
    assert("gs_longitude"@.len() == 12);
    reveal_strlit("gs_angle");
    assert("gs_angle"@.len() == 8);
    reveal_strlit("gs_elevation");
    assert("gs_elevation"@.len() == 12);
    reveal_strlit("station_declination");
    assert("station_declination"@.len() == 19);
    reveal_strlit("id");
    assert("id"@.len() == 2);
    assert("area_code"@[0] != "icao_code"@[0]);
    assert("llz_longitude"@[4] != "llz_frequency"@[4]);
    assert("area_code"@[0] != "llz_width"@[0]);
    assert("icao_code"@[0] != "llz_width"@[0]);
    assert("llz_bearing"@[0] != "gs_latitude"@[0]);
    assert("llz_latitude"@[0] != "gs_longitude"@[0]);
    assert("llz_latitude"@[0] != "gs_elevation"@[0]);
    assert("gs_longitude"@[3] != "gs_elevation"@[3]);
}

/// No column of the table is left out, and none is written twice.
pub proof fn every_column_is_written(row: GsInsertRow, variation: Option<u64>)
    ensures
        insert_columns().len() == 17,
        insert_columns().contains("area_code"@),
        insert_columns().contains("icao_code"@),
        insert_columns().contains("airport_identifier"@),
        insert_columns().contains("runway_identifier"@),
        insert_columns().contains("llz_identifier"@),
        insert_columns().contains("llz_latitude"@),
        insert_columns().contains("llz_longitude"@),
        insert_columns().contains("llz_frequency"@),
        insert_columns().contains("llz_bearing"@),
        insert_columns().contains("llz_width"@),
        insert_columns().contains("ils_mls_gls_category"@),
        insert_columns().contains("gs_latitude"@),
        insert_columns().contains("gs_longitude"@),
        insert_columns().contains("gs_angle"@),
        insert_columns().contains("gs_elevation"@),
        insert_columns().contains("station_declination"@),
        insert_columns().contains("id"@),
        forall|i: int|
            0 <= i < insert_columns().len() ==> #[trigger] records::bound_row(row, variation, insert_columns())[i]
                == row.cell(variation, insert_columns()[i]),
{
    assert(insert_columns()[0] == "area_code"@);
    assert(insert_columns()[1] == "icao_code"@);
    assert(insert_columns()[2] == "airport_identifier"@);
    assert(insert_columns()[3] == "runway_identifier"@);
    assert(insert_columns()[4] == "llz_identifier"@);
    assert(insert_columns()[5] == "llz_latitude"@);
    assert(insert_columns()[6] == "llz_longitude"@);
    assert(insert_columns()[7] == "llz_frequency"@);
    assert(insert_columns()[8] == "llz_bearing"@);
    assert(insert_columns()[9] == "llz_width"@);
    assert(insert_columns()[10] == "ils_mls_gls_category"@);
    assert(insert_columns()[11] == "gs_latitude"@);
    assert(insert_columns()[12] == "gs_longitude"@);
    assert(insert_columns()[13] == "gs_angle"@);
    assert(insert_columns()[14] == "gs_elevation"@);
    assert(insert_columns()[15] == "station_declination"@);
    assert(insert_columns()[16] == "id"@);
}

/// A localizer is of the category that its text names: the third before the second, and the first
/// where none is named.
pub proof fn categories_are_named_in_the_text(lower: Seq<char>)
    ensures
        category(lower) == 3 <==> text::occurs(lower, "cat"@) && text::occurs(lower, "iii"@),
        category(lower) == 2 <==> text::occurs(lower, "cat"@) && text::occurs(lower, "ii"@)
            && !text::occurs(lower, "iii"@),
        category(lower) == 1 || category(lower) == 2 || category(lower) == 3,
        category_text(1) == "1"@,
        category_text(2) == "2"@,
        category_text(3) == "3"@,
{
}

/// A localizer is read by its words.
pub proof fn localizers_are_read_by_their_words(line: Seq<char>)
    ensures
        ({
            let w = text::words(Blank::Unicode, line);
            &&& localizer(line) is Some <==> w.len() >= 12 && w[0] == "4"@
                && numeric::float_literal(w[1]) && numeric::float_literal(w[2])
            &&& localizer(line) matches Some(found) ==> {
                &&& found.latitude == w[1]
                &&& found.longitude == w[2]
                &&& found.frequency == w[4]
                &&& found.identifier == w[7]
                &&& found.airport == w[8]
                &&& found.category == w[11]
            }
        }),
{
}

/// Of the localizers with a frequency, an identifier and an airport, the last is found.
pub proof fn the_last_matching_localizer_is_found(
    localizers: Seq<Localizer<Seq<char>>>,
    frequency: Seq<char>,
    identifier: Seq<char>,
    airport: Seq<char>,
    k: int,
)
    requires
        0 <= k < localizers.len(),
        localizers[k].frequency == frequency,
        localizers[k].identifier == identifier,
        localizers[k].airport == airport,
        forall|j: int|
            k < j < localizers.len() ==> (#[trigger] localizers[j]).frequency != frequency
                || localizers[j].identifier != identifier || localizers[j].airport != airport,
    ensures
        matching_localizer(localizers, frequency, identifier, airport) == Some(localizers[k]),
    decreases localizers.len(),
{
    let init = localizers.drop_last();
    if k < localizers.len() - 1 {
        assert(init[k] == localizers[k]);
        assert forall|j: int| k < j < init.len() implies (#[trigger] init[j]).frequency != frequency
            || init[j].identifier != identifier || init[j].airport != airport by {
            assert(init[j] == localizers[j]);
        }
        the_last_matching_localizer_is_found(init, frequency, identifier, airport, k);
    }
}

/// Where no localizer has the frequency, the identifier and the airport, none is found.
pub proof fn a_localizer_that_is_not_there_is_not_found(
    localizers: Seq<Localizer<Seq<char>>>,
    frequency: Seq<char>,
    identifier: Seq<char>,
    airport: Seq<char>,
)
    requires
        forall|j: int|
            0 <= j < localizers.len() ==> (#[trigger] localizers[j]).frequency != frequency
                || localizers[j].identifier != identifier || localizers[j].airport != airport,
    ensures
        matching_localizer(localizers, frequency, identifier, airport) is None,
    decreases localizers.len(),
{
    if localizers.len() > 0 {
        let init = localizers.drop_last();
        assert forall|j: int| 0 <= j < init.len() implies (#[trigger] init[j]).frequency != frequency
            || init[j].identifier != identifier || init[j].airport != airport by {
            assert(init[j] == localizers[j]);
        }
        a_localizer_that_is_not_there_is_not_found(init, frequency, identifier, airport);
    }
}

/// A glide slope is read by its words and joined with the localizer of its frequency, identifier
/// and airport. The angle is the first three digits of the seventh word, the bearing the rest.
pub proof fn glide_slopes_are_read_by_their_words(
    line: Seq<char>,
    localizers: Seq<Localizer<Seq<char>>>,
)
    ensures
        ({
            let w = text::words(Blank::Unicode, line);
            let found = matching_localizer(localizers, w[4], w[7], w[8]);
            &&& glide_slope(line, localizers) is Some <==> {
                &&& w.len() >= 12
                &&& w[0] == "6"@
                &&& w[6].len() >= 4
                &&& numeric::signed(w[3]) is Some
                &&& numeric::float_literal(w[1])
                &&& numeric::float_literal(w[2])
                &&& numeric::float_literal(w[6].take(3))
                &&& numeric::float_literal(w[6].skip(3))
                &&& w[4].len() >= 4
                &&& numeric::float_literal(parsers::vhf_frequency(w[4]))
                &&& found is Some
            }
            &&& glide_slope(line, localizers) matches Some(row) ==> {
                &&& row.gs_latitude == w[1]
                &&& row.gs_longitude == w[2]
                &&& Some(row.gs_elevation) == numeric::signed(w[3])
                &&& row.llz_frequency == parsers::vhf_frequency(w[4])
                &&& row.angle == w[6].take(3)
                &&& row.true_bearing == w[6].skip(3)
                &&& row.llz_identifier == w[7]
                &&& row.airport_identifier == w[8]
                &&& row.icao_code == w[9]
                &&& row.runway_identifier == "RW"@ + w[10]
                &&& row.llz_latitude == found->0.latitude
                &&& row.llz_longitude == found->0.longitude
                &&& row.category == category(names::lower_text(found->0.category))
            }
        }),
{
}

/// The glide slopes of a file are those of its lines, joined with the localizers of the same file.
pub proof fn every_glide_slope_of_a_file_is_read(
    lines: Seq<Seq<char>>,
    row: GsPendingRow<Seq<char>>,
    found: Localizer<Seq<char>>,
)
    ensures
        gs_rows(lines).contains(row) <==> exists|i: int|
            0 <= i < lines.len() && glide_slope(
                #[trigger] lines[i],
                text::collect(lines, localizer_reader()),
            ) == Some(row),
        text::collect(lines, localizer_reader()).contains(found) <==> exists|i: int|
            0 <= i < lines.len() && localizer(#[trigger] lines[i]) == Some(found),
{
    let all = text::collect(lines, localizer_reader());
    let f = glide_slope_reader(all);
    let g = localizer_reader();
    text::lemma_collect_contains(lines, f, row);
    text::lemma_collect_contains(lines, g, found);
    assert forall|i: int| 0 <= i < lines.len() implies f(i, #[trigger] lines[i]) == glide_slope(
        lines[i],
        all,
    ) && g(i, lines[i]) == localizer(lines[i]) by {}
}

/// A glide slope is written with what was read and measured of it, under an identifier made of its
/// airport, its ICAO code and its localizer.
pub proof fn a_glide_slope_is_written_as_it_was_read(
    rows: Seq<GsPendingRow>,
    measures: Seq<GsMeasure>,
    i: int,
)
    requires
        0 <= i < rows.len(),
        measures.len() >= rows.len(),
    ensures
        ({
            let row = rows[i];
            let written = gs_inserts(rows, measures)[i];
            &&& gs_inserts(rows, measures).len() == rows.len()
            &&& written.airport_identifier == row.airport_identifier@
            &&& written.gs_angle == measures[i].angle
            &&& written.llz_bearing == measures[i].bearing
            &&& written.station_declination == measures[i].declination
            &&& written.gs_elevation == row.gs_elevation
            &&& written.gs_latitude == row.gs_latitude@
            &&& written.gs_longitude == row.gs_longitude@
            &&& written.icao_code == row.icao_code@
            &&& row.category == 1 || row.category == 2 || row.category == 3
                ==> written.ils_mls_gls_category == category_text(row.category)
            &&& written.llz_frequency == row.llz_frequency@
            &&& written.llz_identifier == row.llz_identifier@
            &&& written.llz_latitude == row.llz_latitude@
            &&& written.llz_longitude == row.llz_longitude@
            &&& written.llz_width == 0x4008_0000_0000_0000
            &&& written.runway_identifier == row.runway_identifier@
            &&& written.id == row.airport_identifier@ + row.icao_code@ + row.llz_identifier@
            &&& row.icao_code@ == "VH"@ ==> written.area_code == "PAC"@
            &&& row.icao_code@ != "VH"@ ==> written.area_code == "EEU"@
        }),
{
}

/// A glide slope is known by its airport, its runway and its localizer.
pub proof fn a_glide_slope_is_known_by_airport_runway_and_localizer(row: GsPendingRow)
    ensures
        row.key() == seq![row.airport_identifier@, row.runway_identifier@, row.llz_identifier@],
{
}

/// Known glide slopes are asked for by airport, runway and localizer, in the order of their keys.
pub proof fn known_rows_are_asked_for_by_their_keys()
    ensures
        known_query_head() == "SELECT airport_identifier, runway_identifier, llz_identifier FROM tbl_localizers_glideslopes WHERE (airport_identifier, runway_identifier, llz_identifier) IN ("@,
{
}

/// Every field of a `Localizer` is seen under its own name.
pub proof fn every_field_of_localizer_is_seen(it: Localizer)
    ensures
        it@.frequency == it.frequency@,
        it@.identifier == it.identifier@,
        it@.airport == it.airport@,
        it@.latitude == it.latitude@,
        it@.longitude == it.longitude@,
        it@.category == it.category@,
{
}

/// Every field of a `GsPendingRow` is seen under its own name.
pub proof fn every_field_of_gs_pending_row_is_seen(it: GsPendingRow)
    ensures
        it@.airport_identifier == it.airport_identifier@,
        it@.angle == it.angle@,
        it@.gs_elevation == it.gs_elevation,
        it@.gs_latitude == it.gs_latitude@,
        it@.gs_longitude == it.gs_longitude@,
        it@.icao_code == it.icao_code@,
        it@.category == it.category,
        it@.llz_frequency == it.llz_frequency@,
        it@.llz_identifier == it.llz_identifier@,
        it@.llz_latitude == it.llz_latitude@,
        it@.llz_longitude == it.llz_longitude@,
        it@.true_bearing == it.true_bearing@,
        it@.runway_identifier == it.runway_identifier@,
{
}

/// Every field of a `GsInsertRow` is seen under its own name.
pub proof fn every_field_of_gs_insert_row_is_seen(it: GsInsertRow)
    ensures
        it@.airport_identifier == it.airport_identifier@,
        it@.area_code == it.area_code@,
        it@.gs_angle == it.gs_angle,
        it@.gs_elevation == it.gs_elevation,
        it@.gs_latitude == it.gs_latitude@,
        it@.gs_longitude == it.gs_longitude@,
        it@.icao_code == it.icao_code@,
        it@.ils_mls_gls_category == it.ils_mls_gls_category@,
        it@.llz_bearing == it.llz_bearing,
        it@.llz_frequency == it.llz_frequency@,
        it@.llz_identifier == it.llz_identifier@,
        it@.llz_latitude == it.llz_latitude@,
        it@.llz_longitude == it.llz_longitude@,
        it@.llz_width == it.llz_width,
        it@.runway_identifier == it.runway_identifier@,
        it@.station_declination == it.station_declination,
        it@.id == it.id@,
{
}

} // verus!
