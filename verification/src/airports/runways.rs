//! Runways: joining their tables, choosing those to write and laying them out.

use crate::db;
use crate::db::{BoundQuery, Cell};
use crate::decode;
use crate::double::Point;
use crate::keyed;
use crate::keyed::RowSet;
use crate::records;
use crate::records::{Bindable, Record};
use crate::regions;
use crate::tables;
use crate::tables::{CsvTable, TableError};
use crate::text;
use crate::text::Blank;
use vstd::prelude::*;

verus! {

/// One direction of a runway. Numbers are checked literals.
#[verifier::ext_equal]
pub struct FirstCsvRow<T = String> {
    pub rwy_id: T,
    pub txt_desig: T,
    pub val_true_brg: Option<T>,
    pub val_elev: Option<T>,
    pub val_thr_displace: Option<T>,
}

impl View for FirstCsvRow {
    type V = FirstCsvRow<Seq<char>>;

    open spec fn view(&self) -> Self::V {
        FirstCsvRow {
            rwy_id: self.rwy_id@,
            txt_desig: self.txt_desig@,
            val_true_brg: text::opt(self.val_true_brg),
            val_elev: text::opt(self.val_elev),
            val_thr_displace: text::opt(self.val_thr_displace),
        }
    }
}

/// The columns of the runway directions; those that may be missing are optional.
#[derive(Clone, Copy, PartialEq, Eq, Debug, Structural)]
pub struct FirstCsvRowColumns {
    pub rwy_id: usize,
    pub txt_desig: usize,
    pub true_brg: Option<usize>,
    pub elev: Option<usize>,
    pub thr_displace: Option<usize>,
}

/// The columns that headers name, or the first required one that they lack.
pub open spec fn direction_columns(headers: Seq<Seq<char>>) -> Result<
    FirstCsvRowColumns,
    TableError<Seq<char>>,
> {
    match (
        tables::column(headers, "RWY_ID"@),
        tables::column(headers, "TXT_DESIG"@),
    ) {
        (Some(rwy_id), Some(txt_desig)) => Ok(
            FirstCsvRowColumns {
                rwy_id,
                txt_desig,
                true_brg: tables::column(headers, "VAL_TRUE_BRG"@),
                elev: tables::column(headers, "VAL_ELEV"@),
                thr_displace: tables::column(headers, "VAL_THR_DISPLACE"@),
            },
        ),
        (None, _) => Err(TableError::MissingColumn("RWY_ID"@)),
        (_, None) => Err(TableError::MissingColumn("TXT_DESIG"@)),
    }
}

/// The runway directions row by row; a row without identifier gives none.
pub open spec fn direction_row(columns: FirstCsvRowColumns) -> spec_fn(int, Seq<Seq<char>>) -> Option<
    FirstCsvRow<Seq<char>>,
> {
    |i: int, row: Seq<Seq<char>>|
        match tables::field(row, Some(columns.rwy_id)) {
            Some(rwy_id) => Some(
                FirstCsvRow {
                    rwy_id,
                    txt_desig: tables::field_or_empty(row, Some(columns.txt_desig)),
                    val_true_brg: tables::number(row, columns.true_brg),
                    val_elev: tables::number(row, columns.elev),
                    val_thr_displace: tables::number(row, columns.thr_displace),
                },
            ),
            None => None,
        }
}

/// What a table gives of the runway directions.
pub open spec fn direction_rows(table: (Seq<Seq<char>>, Seq<Seq<Seq<char>>>)) -> Result<
    Seq<FirstCsvRow<Seq<char>>>,
    TableError<Seq<char>>,
> {
    match direction_columns(table.0) {
        Ok(columns) => Ok(text::collect(table.1, direction_row(columns))),
        Err(error) => Err(error),
    }
}

/// The view of the outcome of reading the runway directions.
pub open spec fn direction_outcome(r: Result<Vec<FirstCsvRow>, TableError>) -> Result<
    Seq<FirstCsvRow<Seq<char>>>,
    TableError<Seq<char>>,
> {
    match r {
        Ok(rows) => Ok(text::views(rows@)),
        Err(error) => Err(error@),
    }
}

/// Reads the runway directions.
pub fn read_direction_rows(table: &CsvTable) -> (r: Result<Vec<FirstCsvRow>, TableError>)
    ensures
        direction_outcome(r) == direction_rows(table@),
{
    let rwy_id: usize = match tables::required_index(&table.headers, "RWY_ID") {
        Ok(position) => position,
        Err(error) => return Err(error),
    };
    let txt_desig: usize = match tables::required_index(&table.headers, "TXT_DESIG") {
        Ok(position) => position,
        Err(error) => return Err(error),
    };
    let columns = FirstCsvRowColumns {
        rwy_id,
        txt_desig,
        true_brg: tables::optional_index(&table.headers, "VAL_TRUE_BRG"),
        elev: tables::optional_index(&table.headers, "VAL_ELEV"),
        thr_displace: tables::optional_index(&table.headers, "VAL_THR_DISPLACE"),
    };
    let ghost all = keyed::row_views(table.rows@);
    let ghost f = direction_row(columns);
    let mut out: Vec<FirstCsvRow> = Vec::new();
    assert(all.take(0).len() == 0);
    assert(text::views(out@) =~= text::collect(all.take(0), f));
    for i in 0..table.rows.len()
        invariant
            all == keyed::row_views(table.rows@),
            f == direction_row(columns),
            text::views(out@) == text::collect(all.take(i as int), f),
    {
        proof {
            text::lemma_collect_step(all, f, i as int);
            assert(all[i as int] == text::views(table.rows@[i as int]@));
        }
        let row: &Vec<String> = &table.rows[i];
        match tables::optional_string(row, Some(columns.rwy_id)) {
            Some(rwy_id) => {
                let entry = FirstCsvRow {
                    rwy_id,
                    txt_desig: tables::string_or_empty(row, Some(columns.txt_desig)),
                    val_true_brg: tables::optional_number(row, columns.true_brg),
                    val_elev: tables::optional_number(row, columns.elev),
                    val_thr_displace: tables::optional_number(row, columns.thr_displace),
                };
                proof {
                    text::lemma_views_push(out@, entry);
                }
                out.push(entry);
            },
            None => {},
        }
    }
    assert(all.take(table.rows@.len() as int) == all);
    Ok(out)
}

/// Reads the runway directions from the bytes of a file, which is written in the Latin-1 encoding.
pub fn parse_first_csv(bytes: &[u8]) -> (r: Result<Vec<FirstCsvRow>, TableError>)
    ensures
        direction_outcome(r) == (match tables::csv_table(decode::latin1_text(bytes@), false) {
            Some(table) => direction_rows(table),
            None => Err(TableError::Unreadable),
        }),
{
    let content: String = decode::decode_latin1(bytes);
    match tables::read_csv(content.as_str(), false) {
        Some(table) => read_direction_rows(&table),
        None => Err(TableError::Unreadable),
    }
}

/// A runway. Numbers are checked literals.
#[verifier::ext_equal]
pub struct SecondCsvRow<T = String> {
    pub rwy_id: T,
    pub code_airport: T,
    pub val_len: Option<T>,
    pub val_wid: Option<T>,
    pub num_surface: Option<T>,
}

impl View for SecondCsvRow {
    type V = SecondCsvRow<Seq<char>>;

    open spec fn view(&self) -> Self::V {
        SecondCsvRow {
            rwy_id: self.rwy_id@,
            code_airport: self.code_airport@,
            val_len: text::opt(self.val_len),
            val_wid: text::opt(self.val_wid),
            num_surface: text::opt(self.num_surface),
        }
    }
}

/// The columns of the runways; those that may be missing are optional.
#[derive(Clone, Copy, PartialEq, Eq, Debug, Structural)]
pub struct SecondCsvRowColumns {
    pub rwy_id: usize,
    pub code_airport: usize,
    pub len: Option<usize>,
    pub wid: Option<usize>,
    pub surface: Option<usize>,
}

/// The columns that headers name, or the first required one that they lack.
pub open spec fn runway_columns(headers: Seq<Seq<char>>) -> Result<
    SecondCsvRowColumns,
    TableError<Seq<char>>,
> {
    match (
        tables::column(headers, "RWY_ID"@),
        tables::column(headers, "CODE_AIRPORT"@),
    ) {
        (Some(rwy_id), Some(code_airport)) => Ok(
            SecondCsvRowColumns {
                rwy_id,
                code_airport,
                len: tables::column(headers, "VAL_LEN"@),
                wid: tables::column(headers, "VAL_WID"@),
                surface: tables::column(headers, "NUM_SURFACE"@),
            },
        ),
        (None, _) => Err(TableError::MissingColumn("RWY_ID"@)),
        (_, None) => Err(TableError::MissingColumn("CODE_AIRPORT"@)),
    }
}

/// The runways row by row; a row without identifier gives none.
pub open spec fn runway_row(columns: SecondCsvRowColumns) -> spec_fn(int, Seq<Seq<char>>) -> Option<
    SecondCsvRow<Seq<char>>,
> {
    |i: int, row: Seq<Seq<char>>|
        match tables::field(row, Some(columns.rwy_id)) {
            Some(rwy_id) => Some(
                SecondCsvRow {
                    rwy_id,
                    code_airport: tables::field_or_empty(row, Some(columns.code_airport)),
                    val_len: tables::number(row, columns.len),
                    val_wid: tables::number(row, columns.wid),
                    num_surface: tables::number(row, columns.surface),
                },
            ),
            None => None,
        }
}

/// What a table gives of the runways.
pub open spec fn runway_rows(table: (Seq<Seq<char>>, Seq<Seq<Seq<char>>>)) -> Result<
    Seq<SecondCsvRow<Seq<char>>>,
    TableError<Seq<char>>,
> {
    match runway_columns(table.0) {
        Ok(columns) => Ok(text::collect(table.1, runway_row(columns))),
        Err(error) => Err(error),
    }
}

/// The view of the outcome of reading the runways.
pub open spec fn runway_outcome(r: Result<Vec<SecondCsvRow>, TableError>) -> Result<
    Seq<SecondCsvRow<Seq<char>>>,
    TableError<Seq<char>>,
> {
    match r {
        Ok(rows) => Ok(text::views(rows@)),
        Err(error) => Err(error@),
    }
}

/// Reads the runways.
pub fn read_runway_rows(table: &CsvTable) -> (r: Result<Vec<SecondCsvRow>, TableError>)
    ensures
        runway_outcome(r) == runway_rows(table@),
{
    let rwy_id: usize = match tables::required_index(&table.headers, "RWY_ID") {
        Ok(position) => position,
        Err(error) => return Err(error),
    };
    let code_airport: usize = match tables::required_index(&table.headers, "CODE_AIRPORT") {
        Ok(position) => position,
        Err(error) => return Err(error),
    };
    let columns = SecondCsvRowColumns {
        rwy_id,
        code_airport,
        len: tables::optional_index(&table.headers, "VAL_LEN"),
        wid: tables::optional_index(&table.headers, "VAL_WID"),
        surface: tables::optional_index(&table.headers, "NUM_SURFACE"),
    };
    let ghost all = keyed::row_views(table.rows@);
    let ghost f = runway_row(columns);
    let mut out: Vec<SecondCsvRow> = Vec::new();
    assert(all.take(0).len() == 0);
    assert(text::views(out@) =~= text::collect(all.take(0), f));
    for i in 0..table.rows.len()
        invariant
            all == keyed::row_views(table.rows@),
            f == runway_row(columns),
            text::views(out@) == text::collect(all.take(i as int), f),
    {
        proof {
            text::lemma_collect_step(all, f, i as int);
            assert(all[i as int] == text::views(table.rows@[i as int]@));
        }
        let row: &Vec<String> = &table.rows[i];
        match tables::optional_string(row, Some(columns.rwy_id)) {
            Some(rwy_id) => {
                let entry = SecondCsvRow {
                    rwy_id,
                    code_airport: tables::string_or_empty(row, Some(columns.code_airport)),
                    val_len: tables::optional_number(row, columns.len),
                    val_wid: tables::optional_number(row, columns.wid),
                    num_surface: tables::optional_number(row, columns.surface),
                };
                proof {
                    text::lemma_views_push(out@, entry);
                }
                out.push(entry);
            },
            None => {},
        }
    }
    assert(all.take(table.rows@.len() as int) == all);
    Ok(out)
}

/// Reads the runways from the bytes of a file, which is written in the Latin-1 encoding.
pub fn parse_second_csv(bytes: &[u8]) -> (r: Result<Vec<SecondCsvRow>, TableError>)
    ensures
        runway_outcome(r) == (match tables::csv_table(decode::latin1_text(bytes@), false) {
            Some(table) => runway_rows(table),
            None => Err(TableError::Unreadable),
        }),
{
    let content: String = decode::decode_latin1(bytes);
    match tables::read_csv(content.as_str(), false) {
        Some(table) => read_runway_rows(&table),
        None => Err(TableError::Unreadable),
    }
}

/// The magnetic variation at an airport, as a checked literal.
#[verifier::ext_equal]
pub struct MagvarRow<T = String> {
    pub code_id: T,
    pub mag_var: T,
}

impl View for MagvarRow {
    type V = MagvarRow<Seq<char>>;

    open spec fn view(&self) -> Self::V {
        MagvarRow {
            code_id: self.code_id@,
            mag_var: self.mag_var@,
        }
    }
}

/// The columns of the magnetic variations; those that may be missing are optional.
#[derive(Clone, Copy, PartialEq, Eq, Debug, Structural)]
pub struct MagvarRowColumns {
    pub code_id: usize,
    pub mag_var: Option<usize>,
}

/// The columns that headers name, or the first required one that they lack.
pub open spec fn magvar_columns(headers: Seq<Seq<char>>) -> Result<
    MagvarRowColumns,
    TableError<Seq<char>>,
> {
    match tables::column(headers, "CODE_ID"@) {
        Some(code_id) => Ok(
            MagvarRowColumns {
                code_id,
                mag_var: tables::column(headers, "VAL_MAG_VAR"@),
            },
        ),
        None => Err(TableError::MissingColumn("CODE_ID"@)),
    }
}

/// The magnetic variations row by row; a row without identifier gives none.
pub open spec fn magvar_row(columns: MagvarRowColumns) -> spec_fn(int, Seq<Seq<char>>) -> Option<
    MagvarRow<Seq<char>>,
> {
    |i: int, row: Seq<Seq<char>>|
        match (
            tables::field(row, Some(columns.code_id)),
            tables::number(row, columns.mag_var),
        ) {
            (Some(code_id), Some(mag_var)) => Some(MagvarRow { code_id, mag_var }),
            _ => None,
        }
}

/// What a table gives of the magnetic variations.
pub open spec fn magvar_rows(table: (Seq<Seq<char>>, Seq<Seq<Seq<char>>>)) -> Result<
    Seq<MagvarRow<Seq<char>>>,
    TableError<Seq<char>>,
> {
    match magvar_columns(table.0) {
        Ok(columns) => Ok(text::collect(table.1, magvar_row(columns))),
        Err(error) => Err(error),
    }
}

/// The view of the outcome of reading the magnetic variations.
pub open spec fn magvar_outcome(r: Result<Vec<MagvarRow>, TableError>) -> Result<
    Seq<MagvarRow<Seq<char>>>,
    TableError<Seq<char>>,
> {
    match r {
        Ok(rows) => Ok(text::views(rows@)),
        Err(error) => Err(error@),
    }
}

/// Reads the magnetic variations.
pub fn read_magvar_rows(table: &CsvTable) -> (r: Result<Vec<MagvarRow>, TableError>)
    ensures
        magvar_outcome(r) == magvar_rows(table@),
{
    let code_id: usize = match tables::required_index(&table.headers, "CODE_ID") {
        Ok(position) => position,
        Err(error) => return Err(error),
    };
    let columns = MagvarRowColumns {
        code_id,
        mag_var: tables::optional_index(&table.headers, "VAL_MAG_VAR"),
    };
    let ghost all = keyed::row_views(table.rows@);
    let ghost f = magvar_row(columns);
    let mut out: Vec<MagvarRow> = Vec::new();
    assert(all.take(0).len() == 0);
    assert(text::views(out@) =~= text::collect(all.take(0), f));
    for i in 0..table.rows.len()
        invariant
            all == keyed::row_views(table.rows@),
            f == magvar_row(columns),
            text::views(out@) == text::collect(all.take(i as int), f),
    {
        proof {
            text::lemma_collect_step(all, f, i as int);
            assert(all[i as int] == text::views(table.rows@[i as int]@));
        }
        let row: &Vec<String> = &table.rows[i];
        match (
            tables::optional_string(row, Some(columns.code_id)),
            tables::optional_number(row, columns.mag_var),
        ) {
            (Some(code_id), Some(mag_var)) => {
                let entry = MagvarRow { code_id, mag_var };
                proof {
                    text::lemma_views_push(out@, entry);
                }
                out.push(entry);
            },
            _ => {},
        }
    }
    assert(all.take(table.rows@.len() as int) == all);
    Ok(out)
}

/// Reads the magnetic variations from the bytes of a file, which is written in the GB18030 encoding.
pub fn parse_magvar_csv(bytes: &[u8]) -> (r: Result<Vec<MagvarRow>, TableError>)
    requires
        bytes@.len() <= decode::MAX_DECODED_BYTES,
    ensures
        magvar_outcome(r) == (match tables::csv_table(decode::gb18030_text(bytes@), true) {
            Some(table) => magvar_rows(table),
            None => Err(TableError::Unreadable),
        }),
{
    let content: String = decode::decode_gb18030(bytes);
    match tables::read_csv(content.as_str(), true) {
        Some(table) => read_magvar_rows(&table),
        None => Err(TableError::Unreadable),
    }
}

/// The position of a runway as the master data store it.
#[verifier::ext_equal]
pub struct StoredPoint<T = String> {
    pub icao: T,
    pub ident: T,
    pub latitude: Option<u64>,
    pub longitude: Option<u64>,
}

impl View for StoredPoint {
    type V = StoredPoint<Seq<char>>;

    open spec fn view(&self) -> Self::V {
        StoredPoint {
            icao: self.icao@,
            ident: self.ident@,
            latitude: self.latitude,
            longitude: self.longitude,
        }
    }
}

/// The localizer of a runway as the master data store it.
#[verifier::ext_equal]
pub struct StoredIls<T = String> {
    pub icao: T,
    pub runway: T,
    pub ident: Option<T>,
}

impl View for StoredIls {
    type V = StoredIls<Seq<char>>;

    open spec fn view(&self) -> Self::V {
        StoredIls {
            icao: self.icao@,
            runway: self.runway@,
            ident: text::opt(self.ident),
        }
    }
}

/// The last runway with an identifier.
pub open spec fn second_row(log: Seq<SecondCsvRow<Seq<char>>>, rwy_id: Seq<char>) -> Option<SecondCsvRow<Seq<char>>>
    decreases log.len(),
{
    if log.len() == 0 {
        None
    } else if log.last().rwy_id == rwy_id {
        Some(log.last())
    } else {
        second_row(log.drop_last(), rwy_id)
    }
}

fn find_second_row(log: &Vec<SecondCsvRow>, rwy_id: &str) -> (r: Option<usize>)
    ensures
        match r {
            Some(i) => i < log@.len() && second_row(text::views(log@), rwy_id@) == ({
                let e = log@[i as int]@;
                Some(e)
            }),
            None => second_row(text::views(log@), rwy_id@) is None,
        },
{
    let ghost all = text::views(log@);
    let mut n: usize = log.len();
    assert(all.take(n as int) == all);
    while n > 0
        invariant
            n <= log@.len(),
            all == text::views(log@),
            second_row(all, rwy_id@) == second_row(all.take(n as int), rwy_id@),
        decreases n,
    {
        assert(all.take(n as int).last() == log@[n - 1]@);
        assert(all.take(n as int).drop_last() == all.take(n - 1));
        if text::same(log[n - 1].rwy_id.as_str(), rwy_id) {
            return Some(n - 1);
        }
        n = n - 1;
    }
    None
}

/// The first magnetic variation for an airport.
pub open spec fn magvar_at(log: Seq<MagvarRow<Seq<char>>>, airport: Seq<char>) -> Option<Seq<char>>
    decreases log.len(),
{
    if log.len() == 0 {
        None
    } else if log[0].code_id == airport {
        Some(log[0].mag_var)
    } else {
        magvar_at(log.skip(1), airport)
    }
}

fn find_magvar_at(log: &Vec<MagvarRow>, airport: &str) -> (r: Option<usize>)
    ensures
        match r {
            Some(i) => i < log@.len() && magvar_at(text::views(log@), airport@) == ({
                let e = log@[i as int]@;
                Some(e.mag_var)
            }),
            None => magvar_at(text::views(log@), airport@) is None,
        },
{
    let ghost all = text::views(log@);
    assert(all.skip(0) == all);
    for i in 0..log.len()
        invariant
            all == text::views(log@),
            magvar_at(all, airport@) == magvar_at(all.skip(i as int), airport@),
    {
        assert(all.skip(i as int)[0] == log@[i as int]@);
        assert(all.skip(i as int).skip(1) == all.skip(i + 1));
        if text::same(log[i].code_id.as_str(), airport) {
            return Some(i);
        }
    }
    None
}

/// The position in a stored row, if the row is complete.
pub open spec fn stored_point(row: StoredPoint<Seq<char>>) -> Option<Point> {
    match (row.latitude, row.longitude) {
        (Some(latitude), Some(longitude)) if row.icao.len() > 0 && row.ident.len() > 0 => Some(
            Point { latitude, longitude },
        ),
        _ => None,
    }
}

fn find_stored_point(row: &StoredPoint) -> (r: Option<Point>)
    ensures
        r == stored_point(row@),
{
    match (row.latitude, row.longitude) {
        (Some(latitude), Some(longitude)) => {
            if text::is_empty(row.icao.as_str()) || text::is_empty(row.ident.as_str()) {
                None
            } else {
                Some(Point { latitude, longitude })
            }
        },
        _ => None,
    }
}

/// The position in the last complete row for a runway.
pub open spec fn point_at(log: Seq<StoredPoint<Seq<char>>>, icao: Seq<char>, ident: Seq<char>) -> Option<Point>
    decreases log.len(),
{
    if log.len() == 0 {
        None
    } else if log.last().icao == icao && log.last().ident == ident && stored_point(log.last()) is Some {
        stored_point(log.last())
    } else {
        point_at(log.drop_last(), icao, ident)
    }
}

fn find_point_at(log: &Vec<StoredPoint>, icao: &str, ident: &str) -> (r: Option<usize>)
    ensures
        match r {
            Some(i) => i < log@.len() && point_at(text::views(log@), icao@, ident@) == ({
                let e = log@[i as int]@;
                stored_point(e)
            }),
            None => point_at(text::views(log@), icao@, ident@) is None,
        },
{
    let ghost all = text::views(log@);
    let mut n: usize = log.len();
    assert(all.take(n as int) == all);
    while n > 0
        invariant
            n <= log@.len(),
            all == text::views(log@),
            point_at(all, icao@, ident@) == point_at(all.take(n as int), icao@, ident@),
        decreases n,
    {
        assert(all.take(n as int).last() == log@[n - 1]@);
        assert(all.take(n as int).drop_last() == all.take(n - 1));
        if text::same(log[n - 1].icao.as_str(), icao) && text::same(log[n - 1].ident.as_str(), ident) && find_stored_point(&log[n - 1]).is_some() {
            return Some(n - 1);
        }
        n = n - 1;
    }
    None
}

/// Whether any stored row is complete.
pub open spec fn has_points(log: Seq<StoredPoint<Seq<char>>>) -> bool {
    exists|i: int| 0 <= i < log.len() && stored_point(#[trigger] log[i]) is Some
}

fn is_with_points(log: &Vec<StoredPoint>) -> (r: bool)
    ensures
        r == has_points(text::views(log@)),
{
    let ghost all = text::views(log@);
    for i in 0..log.len()
        invariant
            all == text::views(log@),
            forall|k: int| 0 <= k < i ==> stored_point(#[trigger] all[k]) is None,
    {
        assert(all[i as int] == log@[i as int]@);
        if find_stored_point(&log[i]).is_some() {
            assert(stored_point(all[i as int]) is Some);
            return true;
        }
    }
    false
}

/// The identifier in the first row for a runway of an airport.
pub open spec fn first_ils(log: Seq<StoredIls<Seq<char>>>, icao: Seq<char>, runway: Seq<char>) -> Option<Option<Seq<char>>>
    decreases log.len(),
{
    if log.len() == 0 {
        None
    } else if log[0].icao == icao && log[0].runway == runway && log[0].icao.len() > 0 && log[0].runway.len() > 0 {
        Some(log[0].ident)
    } else {
        first_ils(log.skip(1), icao, runway)
    }
}

fn find_first_ils(log: &Vec<StoredIls>, icao: &str, runway: &str) -> (r: Option<usize>)
    ensures
        match r {
            Some(i) => i < log@.len() && first_ils(text::views(log@), icao@, runway@) == ({
                let e = log@[i as int]@;
                Some(e.ident)
            }),
            None => first_ils(text::views(log@), icao@, runway@) is None,
        },
{
    let ghost all = text::views(log@);
    assert(all.skip(0) == all);
    for i in 0..log.len()
        invariant
            all == text::views(log@),
            first_ils(all, icao@, runway@) == first_ils(all.skip(i as int), icao@, runway@),
    {
        assert(all.skip(i as int)[0] == log@[i as int]@);
        assert(all.skip(i as int).skip(1) == all.skip(i + 1));
        if text::same(log[i].icao.as_str(), icao) && text::same(log[i].runway.as_str(), runway) && !text::is_empty(log[i].icao.as_str()) && !text::is_empty(log[i].runway.as_str()) {
            return Some(i);
        }
    }
    None
}

/// The localizer of a runway, if its row names one.
pub open spec fn llz_info(
    log: Seq<StoredIls<Seq<char>>>,
    icao: Seq<char>,
    runway: Seq<char>,
) -> Option<Seq<char>> {
    match first_ils(log, icao, runway) {
        Some(Some(ident)) if ident.len() > 0 => Some(ident),
        _ => None,
    }
}

/// Finds the localizer of a runway.
pub fn get_llz_info(log: &Vec<StoredIls>, icao: &str, runway: &str) -> (r: Option<String>)
    ensures
        text::opt(r) == llz_info(text::views(log@), icao@, runway@),
{
    match find_first_ils(log, icao, runway) {
        Some(i) => match &log[i].ident {
            Some(ident) => {
                if text::is_empty(ident.as_str()) {
                    None
                } else {
                    Some(ident.clone())
                }
            },
            None => None,
        },
        None => None,
    }
}

/// The airports whose runways are left as they are.
pub open spec fn skipped_airport(icao: Seq<char>) -> bool {
    ||| icao == "ZBAA"@
    ||| icao == "ZBAD"@
    ||| icao == "ZBDS"@
    ||| icao == "ZBER"@
    ||| icao == "ZBDT"@
    ||| icao == "ZBHH"@
    ||| icao == "ZBLA"@
    ||| icao == "ZBMZ"@
    ||| icao == "ZBOW"@
    ||| icao == "ZBSJ"@
    ||| icao == "ZBTJ"@
    ||| icao == "ZBYC"@
    ||| icao == "ZBYN"@
    ||| icao == "ZGDY"@
    ||| icao == "ZGGG"@
    ||| icao == "ZGHA"@
    ||| icao == "ZGKL"@
    ||| icao == "ZGNN"@
    ||| icao == "ZGOW"@
    ||| icao == "ZGSZ"@
    ||| icao == "ZGZJ"@
    ||| icao == "ZHCC"@
    ||| icao == "ZHEC"@
    ||| icao == "ZHES"@
    ||| icao == "ZHHH"@
    ||| icao == "ZHXF"@
    ||| icao == "ZHYC"@
    ||| icao == "ZJHK"@
    ||| icao == "ZJQH"@
    ||| icao == "ZJSY"@
    ||| icao == "ZL02"@
    ||| icao == "ZL03"@
    ||| icao == "ZLDH"@
    ||| icao == "ZLIC"@
    ||| icao == "ZLLL"@
    ||| icao == "ZLXN"@
    ||| icao == "ZLXY"@
    ||| icao == "ZPJH"@
    ||| icao == "ZPLJ"@
    ||| icao == "ZPMS"@
    ||| icao == "ZPPP"@
    ||| icao == "ZSAM"@
    ||| icao == "ZSCG"@
    ||| icao == "ZSCN"@
    ||| icao == "ZSFZ"@
    ||| icao == "ZSHC"@
    ||| icao == "ZSJN"@
    ||| icao == "ZSLG"@
    ||| icao == "ZSLY"@
    ||| icao == "ZSNB"@
    ||| icao == "ZSNJ"@
    ||| icao == "ZSNT"@
    ||| icao == "ZSOF"@
    ||| icao == "ZSPD"@
    ||| icao == "ZSQD"@
    ||| icao == "ZSQZ"@
    ||| icao == "ZSSH"@
    ||| icao == "ZSSS"@
    ||| icao == "ZSTX"@
    ||| icao == "ZSWA"@
    ||| icao == "ZSWH"@
    ||| icao == "ZSWX"@
    ||| icao == "ZSWZ"@
    ||| icao == "ZSXZ"@
    ||| icao == "ZSYA"@
    ||| icao == "ZSYN"@
    ||| icao == "ZSYT"@
    ||| icao == "ZSYW"@
    ||| icao == "ZSZS"@
    ||| icao == "ZUCK"@
    ||| icao == "ZUGY"@
    ||| icao == "ZULS"@
    ||| icao == "ZUTF"@
    ||| icao == "ZUUU"@
    ||| icao == "ZUXC"@
    ||| icao == "ZW01"@
    ||| icao == "ZW02"@
    ||| icao == "ZWSH"@
    ||| icao == "ZWTN"@
    ||| icao == "ZWWW"@
    ||| icao == "ZWYN"@
    ||| icao == "ZYCC"@
    ||| icao == "ZYHB"@
    ||| icao == "ZYJM"@
    ||| icao == "ZYMD"@
    ||| icao == "ZYQQ"@
    ||| icao == "ZYTL"@
    ||| icao == "ZYTX"@
    ||| icao == "ZYYJ"@
}

fn is_skipped_airport(icao: &str) -> (r: bool)
    ensures
        r == skipped_airport(icao@),
{
    text::same(icao, "ZBAA")
        || text::same(icao, "ZBAD")
        || text::same(icao, "ZBDS")
        || text::same(icao, "ZBER")
        || text::same(icao, "ZBDT")
        || text::same(icao, "ZBHH")
        || text::same(icao, "ZBLA")
        || text::same(icao, "ZBMZ")
        || text::same(icao, "ZBOW")
        || text::same(icao, "ZBSJ")
        || text::same(icao, "ZBTJ")
        || text::same(icao, "ZBYC")
        || text::same(icao, "ZBYN")
        || text::same(icao, "ZGDY")
        || text::same(icao, "ZGGG")
        || text::same(icao, "ZGHA")
        || text::same(icao, "ZGKL")
        || text::same(icao, "ZGNN")
        || text::same(icao, "ZGOW")
        || text::same(icao, "ZGSZ")
        || text::same(icao, "ZGZJ")
        || text::same(icao, "ZHCC")
        || text::same(icao, "ZHEC")
        || text::same(icao, "ZHES")
        || text::same(icao, "ZHHH")
        || text::same(icao, "ZHXF")
        || text::same(icao, "ZHYC")
        || text::same(icao, "ZJHK")
        || text::same(icao, "ZJQH")
        || text::same(icao, "ZJSY")
        || text::same(icao, "ZL02")
        || text::same(icao, "ZL03")
        || text::same(icao, "ZLDH")
        || text::same(icao, "ZLIC")
        || text::same(icao, "ZLLL")
        || text::same(icao, "ZLXN")
        || text::same(icao, "ZLXY")
        || text::same(icao, "ZPJH")
        || text::same(icao, "ZPLJ")
        || text::same(icao, "ZPMS")
        || text::same(icao, "ZPPP")
        || text::same(icao, "ZSAM")
        || text::same(icao, "ZSCG")
        || text::same(icao, "ZSCN")
        || text::same(icao, "ZSFZ")
        || text::same(icao, "ZSHC")
        || text::same(icao, "ZSJN")
        || text::same(icao, "ZSLG")
        || text::same(icao, "ZSLY")
        || text::same(icao, "ZSNB")
        || text::same(icao, "ZSNJ")
        || text::same(icao, "ZSNT")
        || text::same(icao, "ZSOF")
        || text::same(icao, "ZSPD")
        || text::same(icao, "ZSQD")
        || text::same(icao, "ZSQZ")
        || text::same(icao, "ZSSH")
        || text::same(icao, "ZSSS")
        || text::same(icao, "ZSTX")
        || text::same(icao, "ZSWA")
        || text::same(icao, "ZSWH")
        || text::same(icao, "ZSWX")
        || text::same(icao, "ZSWZ")
        || text::same(icao, "ZSXZ")
        || text::same(icao, "ZSYA")
        || text::same(icao, "ZSYN")
        || text::same(icao, "ZSYT")
        || text::same(icao, "ZSYW")
        || text::same(icao, "ZSZS")
        || text::same(icao, "ZUCK")
        || text::same(icao, "ZUGY")
        || text::same(icao, "ZULS")
        || text::same(icao, "ZUTF")
        || text::same(icao, "ZUUU")
        || text::same(icao, "ZUXC")
        || text::same(icao, "ZW01")
        || text::same(icao, "ZW02")
        || text::same(icao, "ZWSH")
        || text::same(icao, "ZWTN")
        || text::same(icao, "ZWWW")
        || text::same(icao, "ZWYN")
        || text::same(icao, "ZYCC")
        || text::same(icao, "ZYHB")
        || text::same(icao, "ZYJM")
        || text::same(icao, "ZYMD")
        || text::same(icao, "ZYQQ")
        || text::same(icao, "ZYTL")
        || text::same(icao, "ZYTX")
        || text::same(icao, "ZYYJ")
}

/// The region of an airport: the characters in its first two bytes, or `UN` where these do not
/// hold whole characters.
pub open spec fn region_of(airport: Seq<char>) -> Seq<char> {
    if airport.len() >= 2 && '\u{7f}' >= airport[0] && '\u{7f}' >= airport[1] {
        airport.take(2)
    } else if airport.len() >= 1 && '\u{80}' <= airport[0] <= '\u{7ff}' {
        airport.take(1)
    } else {
        "UN"@
    }
}

fn find_region(airport: &str) -> (r: String)
    ensures
        r@ == region_of(airport@),
{
    let cs: Vec<char> = text::chars_of(airport);
    if cs.len() >= 2 && cs[0] <= '\u{7f}' && cs[1] <= '\u{7f}' {
        assert(cs@.take(2) == cs@.subrange(0, 2));
        text::text_of(&cs, 0, 2)
    } else if cs.len() >= 1 && '\u{80}' <= cs[0] && cs[0] <= '\u{7ff}' {
        assert(cs@.take(1) == cs@.subrange(0, 1));
        text::text_of(&cs, 0, 1)
    } else {
        text::copy("UN")
    }
}

/// The airport of a runway.
pub open spec fn airport_of(runway: SecondCsvRow<Seq<char>>) -> Seq<char> {
    if runway.code_airport.len() == 0 {
        "UNKNOWN"@
    } else {
        runway.code_airport
    }
}

/// The runway of a direction, if it is not left as it is and its size is known.
pub open spec fn sized_runway(
    first: FirstCsvRow<Seq<char>>,
    second: Seq<SecondCsvRow<Seq<char>>>,
) -> Option<SecondCsvRow<Seq<char>>> {
    match second_row(second, first.rwy_id) {
        Some(runway) if !skipped_airport(airport_of(runway)) && runway.val_len is Some
            && runway.val_wid is Some => Some(runway),
        _ => None,
    }
}

/// A direction of a runway that is written. Numbers are checked literals.
#[verifier::ext_equal]
pub struct PrimaryRunway<T = String> {
    pub airport: T,
    pub runway_identifier: T,
    pub point: Point,
    pub true_bearing: T,
    pub mag_var: Option<T>,
    pub elevation: Option<T>,
    pub displaced: Option<T>,
    pub length: T,
    pub width: T,
    pub num_surface: Option<T>,
    pub llz: Option<T>,
}

impl View for PrimaryRunway {
    type V = PrimaryRunway<Seq<char>>;

    open spec fn view(&self) -> Self::V {
        PrimaryRunway {
            airport: self.airport@,
            runway_identifier: self.runway_identifier@,
            point: self.point,
            true_bearing: self.true_bearing@,
            mag_var: text::opt(self.mag_var),
            elevation: text::opt(self.elevation),
            displaced: text::opt(self.displaced),
            length: self.length@,
            width: self.width@,
            num_surface: text::opt(self.num_surface),
            llz: text::opt(self.llz),
        }
    }
}

impl Record for PrimaryRunway {
    open spec fn key(&self) -> Seq<Seq<char>> {
        seq![self.airport@, self.runway_identifier@]
    }

    fn key_row(&self) -> (r: Vec<String>) {
        let r: Vec<String> = vec![self.airport.clone(), self.runway_identifier.clone()];
        assert(text::views(r@) =~= self.key());
        r
    }
}

/// What the tables and the master data hold.
pub struct RunwaySources {
    pub second: Vec<SecondCsvRow>,
    pub magvars: Vec<MagvarRow>,
    pub points: Vec<StoredPoint>,
    pub ils: Vec<StoredIls>,
}

/// The direction that is written for a row: its position is known, the table does not have it,
/// and its bearing is known.
pub open spec fn primary_runway(
    first: FirstCsvRow<Seq<char>>,
    sources: RunwaySources,
    existing: Seq<Seq<Seq<char>>>,
) -> Option<PrimaryRunway<Seq<char>>> {
    let ident = text::trim(Blank::Unicode, first.txt_desig);
    match sized_runway(first, text::views(sources.second@)) {
        Some(runway) => {
            let airport = airport_of(runway);
            let name = "RW"@ + ident;
            match (
                point_at(text::views(sources.points@), airport, ident),
                first.val_true_brg,
            ) {
                (Some(point), Some(true_bearing)) if !existing.contains(seq![airport, name])
                    => Some(
                    PrimaryRunway {
                        airport,
                        runway_identifier: name,
                        point,
                        true_bearing,
                        mag_var: magvar_at(text::views(sources.magvars@), airport),
                        elevation: first.val_elev,
                        displaced: first.val_thr_displace,
                        length: runway.val_len->0,
                        width: runway.val_wid->0,
                        num_surface: runway.num_surface,
                        llz: llz_info(text::views(sources.ils@), airport, ident),
                    },
                ),
                _ => None,
            }
        },
        None => None,
    }
}

/// The note about a direction whose position is not known.
pub open spec fn missing_note(
    first: FirstCsvRow<Seq<char>>,
    sources: RunwaySources,
) -> Option<Seq<char>> {
    let ident = text::trim(Blank::Unicode, first.txt_desig);
    match sized_runway(first, text::views(sources.second@)) {
        Some(runway) => if point_at(
            text::views(sources.points@),
            airport_of(runway),
            ident,
        ) is None {
            Some("Missing coordinates for "@ + airport_of(runway) + " RW"@ + ident)
        } else {
            None
        },
        None => None,
    }
}

/// The directions that are written, row by row.
pub open spec fn primary_chooser(sources: RunwaySources, existing: Seq<Seq<Seq<char>>>) -> spec_fn(
    int,
    FirstCsvRow<Seq<char>>,
) -> Option<PrimaryRunway<Seq<char>>> {
    |i: int, first: FirstCsvRow<Seq<char>>| primary_runway(first, sources, existing)
}

/// The notes about unknown positions, row by row.
pub open spec fn missing_chooser(sources: RunwaySources) -> spec_fn(
    int,
    FirstCsvRow<Seq<char>>,
) -> Option<Seq<char>> {
    |i: int, first: FirstCsvRow<Seq<char>>| missing_note(first, sources)
}

fn find_sized_runway(first: &FirstCsvRow, second: &Vec<SecondCsvRow>) -> (r: Option<
    (String, usize),
>)
    ensures
        match r {
            Some((airport, i)) => {
                &&& i < second@.len()
                &&& sized_runway(first@, text::views(second@)) == Some(second@[i as int]@)
                &&& airport@ == airport_of(second@[i as int]@)
                &&& second@[i as int]@.val_len is Some
                &&& second@[i as int]@.val_wid is Some
            },
            None => sized_runway(first@, text::views(second@)) is None,
        },
{
    match find_second_row(second, first.rwy_id.as_str()) {
        Some(i) => {
            let airport: String = if text::is_empty(second[i].code_airport.as_str()) {
                text::copy("UNKNOWN")
            } else {
                second[i].code_airport.clone()
            };
            if is_skipped_airport(airport.as_str()) || second[i].val_len.is_none()
                || second[i].val_wid.is_none() {
                None
            } else {
                Some((airport, i))
            }
        },
        None => None,
    }
}

fn text_or_empty(value: &Option<String>) -> (r: String)
    ensures
        r@ == (match text::opt(*value) {
            Some(found) => found,
            None => ""@,
        }),
{
    match value {
        Some(found) => found.clone(),
        None => text::copy(""),
    }
}

/// Chooses the direction of one row, or notes that its position is not known.
fn choose_primary(first: &FirstCsvRow, sources: &RunwaySources, existing: &RowSet) -> (r: (
    Option<PrimaryRunway>,
    Option<String>,
))
    requires
        existing.wf(),
    ensures
        text::opt(r.0) == primary_runway(first@, *sources, existing@),
        text::opt(r.1) == missing_note(first@, *sources),
{
    let ident: String = text::trimmed(Blank::Unicode, first.txt_desig.as_str());
    let (airport, i) = match find_sized_runway(first, &sources.second) {
        Some(found) => found,
        None => return (None, None),
    };
    let point: Point = match find_point_at(&sources.points, airport.as_str(), ident.as_str()) {
        Some(k) => match find_stored_point(&sources.points[k]) {
            Some(point) => point,
            None => {
                let mut note: String = text::copy("Missing coordinates for ");
                note.append(airport.as_str());
                note.append(" RW");
                note.append(ident.as_str());
                return (None, Some(note));
            },
        },
        None => {
            let mut note: String = text::copy("Missing coordinates for ");
            note.append(airport.as_str());
            note.append(" RW");
            note.append(ident.as_str());
            return (None, Some(note));
        },
    };
    let mut name: String = text::copy("RW");
    name.append(ident.as_str());
    let key: Vec<String> = vec![airport.clone(), name.clone()];
    assert(text::views(key@) =~= seq![airport@, name@]);
    if existing.contains(&key) {
        return (None, None);
    }
    let true_bearing: String = match &first.val_true_brg {
        Some(bearing) => bearing.clone(),
        None => return (None, None),
    };
    let mag_var: Option<String> = match find_magvar_at(&sources.magvars, airport.as_str()) {
        Some(k) => Some(sources.magvars[k].mag_var.clone()),
        None => None,
    };
    let llz: Option<String> = get_llz_info(&sources.ils, airport.as_str(), ident.as_str());
    (
        Some(
            PrimaryRunway {
                airport,
                runway_identifier: name,
                point,
                true_bearing,
                mag_var,
                elevation: text::copy_opt(&first.val_elev),
                displaced: text::copy_opt(&first.val_thr_displace),
                length: text_or_empty(&sources.second[i].val_len),
                width: text_or_empty(&sources.second[i].val_wid),
                num_surface: text::copy_opt(&sources.second[i].num_surface),
                llz,
            },
        ),
        None,
    )
}

/// The directions that are written, and notes about those whose position is not known.
pub struct PrimaryRunways {
    pub rows: Vec<PrimaryRunway>,
    pub missing: Vec<String>,
}

/// Chooses the directions that are written.
pub fn build_primary_rows(first: &Vec<FirstCsvRow>, sources: &RunwaySources, existing: &RowSet) -> (r:
    PrimaryRunways)
    requires
        existing.wf(),
    ensures
        text::views(r.rows@) == text::collect(
            text::views(first@),
            primary_chooser(*sources, existing@),
        ),
        text::views(r.missing@) == text::collect(
            text::views(first@),
            missing_chooser(*sources),
        ),
{
    let ghost all = text::views(first@);
    let ghost f = primary_chooser(*sources, existing@);
    let ghost g = missing_chooser(*sources);
    let mut rows: Vec<PrimaryRunway> = Vec::new();
    let mut missing: Vec<String> = Vec::new();
    assert(all.take(0).len() == 0);
    assert(text::views(rows@) =~= text::collect(all.take(0), f));
    assert(text::views(missing@) =~= text::collect(all.take(0), g));
    for i in 0..first.len()
        invariant
            existing.wf(),
            all == text::views(first@),
            f == primary_chooser(*sources, existing@),
            g == missing_chooser(*sources),
            text::views(rows@) == text::collect(all.take(i as int), f),
            text::views(missing@) == text::collect(all.take(i as int), g),
    {
        proof {
            text::lemma_collect_step(all, f, i as int);
            text::lemma_collect_step(all, g, i as int);
            assert(all[i as int] == first@[i as int]@);
        }
        let (row, note) = choose_primary(&first[i], sources, existing);
        match row {
            Some(found) => {
                proof {
                    text::lemma_views_push(rows@, found);
                }
                rows.push(found);
            },
            None => {},
        }
        match note {
            Some(found) => {
                proof {
                    text::lemma_views_push(missing@, found);
                }
                missing.push(found);
            },
            None => {},
        }
    }
    assert(all.take(first@.len() as int) == all);
    PrimaryRunways { rows, missing }
}

/// The keys of a table after rows with further keys were written to it.
pub open spec fn extended(existing: Seq<Seq<Seq<char>>>, keys: Seq<Seq<Seq<char>>>) -> Seq<
    Seq<Seq<char>>,
>
    decreases keys.len(),
{
    if keys.len() == 0 {
        existing
    } else {
        keyed::with_row(extended(existing, keys.drop_last()), keys.last())
    }
}

fn extend_existing(existing: &mut RowSet, rows: &Vec<PrimaryRunway>)
    requires
        old(existing).wf(),
    ensures
        final(existing).wf(),
        final(existing)@ == extended(old(existing)@, records::keys_of(rows@)),
{
    let ghost all = records::keys_of(rows@);
    let ghost before = existing@;
    assert(all.take(0).len() == 0);
    for i in 0..rows.len()
        invariant
            existing.wf(),
            all == records::keys_of(rows@),
            existing@ == extended(before, all.take(i as int)),
    {
        let key: Vec<String> = rows[i].key_row();
        existing.insert(key);
        assert(all.take(i + 1).drop_last() == all.take(i as int));
    }
    assert(all.take(rows@.len() as int) == all);
}

/// A runway as the master data store it.
#[verifier::ext_equal]
pub struct StoredRunway<T = String> {
    pub icao: T,
    pub ident: T,
    pub latitude: Option<u64>,
    pub longitude: Option<u64>,
    pub length: Option<u64>,
    pub width: Option<u64>,
    pub true_bearing: Option<u64>,
    pub magnetic_bearing: Option<u64>,
    pub elevation: Option<u64>,
}

impl View for StoredRunway {
    type V = StoredRunway<Seq<char>>;

    open spec fn view(&self) -> Self::V {
        StoredRunway {
            icao: self.icao@,
            ident: self.ident@,
            latitude: self.latitude,
            longitude: self.longitude,
            length: self.length,
            width: self.width,
            true_bearing: self.true_bearing,
            magnetic_bearing: self.magnetic_bearing,
            elevation: self.elevation,
        }
    }
}

/// A runway of the master data that is written.
#[verifier::ext_equal]
pub struct SupplementaryRunway<T = String> {
    pub airport: T,
    pub runway_identifier: T,
    pub latitude: u64,
    pub longitude: u64,
    pub length: u64,
    pub width: u64,
    pub true_bearing: u64,
    pub magnetic_bearing: u64,
    pub elevation: u64,
    pub llz: Option<T>,
}

impl View for SupplementaryRunway {
    type V = SupplementaryRunway<Seq<char>>;

    open spec fn view(&self) -> Self::V {
        SupplementaryRunway {
            airport: self.airport@,
            runway_identifier: self.runway_identifier@,
            latitude: self.latitude,
            longitude: self.longitude,
            length: self.length,
            width: self.width,
            true_bearing: self.true_bearing,
            magnetic_bearing: self.magnetic_bearing,
            elevation: self.elevation,
            llz: text::opt(self.llz),
        }
    }
}

/// The runway that is written for a stored row: the row is complete and the table does not have it.
pub open spec fn supplementary_runway(
    row: StoredRunway<Seq<char>>,
    ils: Seq<StoredIls<Seq<char>>>,
    existing: Seq<Seq<Seq<char>>>,
) -> Option<SupplementaryRunway<Seq<char>>> {
    let name = "RW"@ + row.ident;
    if {
        &&& row.latitude is Some
        &&& row.longitude is Some
        &&& row.length is Some
        &&& row.width is Some
        &&& row.true_bearing is Some
        &&& row.magnetic_bearing is Some
        &&& row.elevation is Some
        &&& !existing.contains(seq![row.icao, name])
    } {
        Some(
            SupplementaryRunway {
                airport: row.icao,
                runway_identifier: name,
                latitude: row.latitude->0,
                longitude: row.longitude->0,
                length: row.length->0,
                width: row.width->0,
                true_bearing: row.true_bearing->0,
                magnetic_bearing: row.magnetic_bearing->0,
                elevation: row.elevation->0,
                llz: llz_info(ils, row.icao, row.ident),
            },
        )
    } else {
        None
    }
}

/// The runways of the master data that are written, row by row.
pub open spec fn supplementary_chooser(
    ils: Seq<StoredIls<Seq<char>>>,
    existing: Seq<Seq<Seq<char>>>,
) -> spec_fn(int, StoredRunway<Seq<char>>) -> Option<SupplementaryRunway<Seq<char>>> {
    |i: int, row: StoredRunway<Seq<char>>| supplementary_runway(row, ils, existing)
}

fn choose_supplementary(row: &StoredRunway, ils: &Vec<StoredIls>, existing: &RowSet) -> (r: Option<
    SupplementaryRunway,
>)
    requires
        existing.wf(),
    ensures
        text::opt(r) == supplementary_runway(row@, text::views(ils@), existing@),
{
    let (latitude, longitude) = match (row.latitude, row.longitude) {
        (Some(latitude), Some(longitude)) => (latitude, longitude),
        _ => return None,
    };
    let (length, width) = match (row.length, row.width) {
        (Some(length), Some(width)) => (length, width),
        _ => return None,
    };
    let (true_bearing, magnetic_bearing) = match (row.true_bearing, row.magnetic_bearing) {
        (Some(true_bearing), Some(magnetic_bearing)) => (true_bearing, magnetic_bearing),
        _ => return None,
    };
    let elevation: u64 = match row.elevation {
        Some(elevation) => elevation,
        None => return None,
    };
    let mut name: String = text::copy("RW");
    name.append(row.ident.as_str());
    let key: Vec<String> = vec![row.icao.clone(), name.clone()];
    assert(text::views(key@) =~= seq![row.icao@, name@]);
    if existing.contains(&key) {
        return None;
    }
    let llz: Option<String> = get_llz_info(ils, row.icao.as_str(), row.ident.as_str());
    Some(
        SupplementaryRunway {
            airport: row.icao.clone(),
            runway_identifier: name,
            latitude,
            longitude,
            length,
            width,
            true_bearing,
            magnetic_bearing,
            elevation,
            llz,
        },
    )
}

/// Chooses the runways of the master data that are written.
pub fn build_supplementary_rows(
    stored: &Vec<StoredRunway>,
    ils: &Vec<StoredIls>,
    existing: &RowSet,
) -> (out: Vec<SupplementaryRunway>)
    requires
        existing.wf(),
    ensures
        text::views(out@) == text::collect(
            text::views(stored@),
            supplementary_chooser(text::views(ils@), existing@),
        ),
{
    let ghost all = text::views(stored@);
    let ghost f = supplementary_chooser(text::views(ils@), existing@);
    let mut out: Vec<SupplementaryRunway> = Vec::new();
    assert(all.take(0).len() == 0);
    assert(text::views(out@) =~= text::collect(all.take(0), f));
    for i in 0..stored.len()
        invariant
            existing.wf(),
            all == text::views(stored@),
            f == supplementary_chooser(text::views(ils@), existing@),
            text::views(out@) == text::collect(all.take(i as int), f),
    {
        proof {
            text::lemma_collect_step(all, f, i as int);
            assert(all[i as int] == stored@[i as int]@);
        }
        match choose_supplementary(&stored[i], ils, existing) {
            Some(row) => {
                proof {
                    text::lemma_views_push(out@, row);
                }
                out.push(row);
            },
            None => {},
        }
    }
    assert(all.take(stored@.len() as int) == all);
    out
}

/// The airports whose runways are taken from the master data.
pub open spec fn supplementary_airports() -> Seq<Seq<char>> {
    seq!["ZLYX"@, "ZUNZ"@, "ZURK"@, "ZLYS"@, "ZPLJ"@]
}

/// The query for the runways that are taken from the master data.
pub fn supplementary_query() -> (r: BoundQuery)
    ensures
        r@.parameters == supplementary_airports(),
        r@.sql
            == "SELECT ICAO, ident, lati, longi, length, width, geo, mag, alt FROM runway WHERE ICAO IN ("@
            + db::repeated("?"@, ","@, 5) + ")"@,
{
    let parameters: Vec<String> = vec![text::copy("ZLYX"), text::copy("ZUNZ"), text::copy("ZURK"), text::copy("ZLYS"), text::copy("ZPLJ")];
    assert(text::views(parameters@) =~= supplementary_airports());
    let mut sql: String = text::copy(
        "SELECT ICAO, ident, lati, longi, length, width, geo, mag, alt FROM runway WHERE ICAO IN (",
    );
    let variables: String = db::repeat_text("?", ",", 5);
    sql.append(variables.as_str());
    sql.append(")");
    BoundQuery { sql, parameters }
}

/// The master data hold no position of any runway.
#[derive(Clone, Copy, PartialEq, Eq, Debug, Structural)]
pub struct NoAirportData;

/// The runways that are written, and notes about those whose position is not known.
pub struct RunwayPlan {
    pub primary: Vec<PrimaryRunway>,
    pub supplementary: Vec<SupplementaryRunway>,
    pub missing: Vec<String>,
}

/// Chooses the runways that are written: first those of the tables, then those of the master data
/// that are still missing.
pub fn process_runways_to_db(
    first: &Vec<FirstCsvRow>,
    sources: &RunwaySources,
    stored: &Vec<StoredRunway>,
    existing: RowSet,
) -> (r: Result<RunwayPlan, NoAirportData>)
    requires
        existing.wf(),
    ensures
        match r {
            Ok(plan) => {
                &&& has_points(text::views(sources.points@))
                &&& text::views(plan.primary@) == text::collect(
                    text::views(first@),
                    primary_chooser(*sources, existing@),
                )
                &&& text::views(plan.missing@) == text::collect(
                    text::views(first@),
                    missing_chooser(*sources),
                )
                &&& text::views(plan.supplementary@) == text::collect(
                    text::views(stored@),
                    supplementary_chooser(
                        text::views(sources.ils@),
                        extended(existing@, records::keys_of(plan.primary@)),
                    ),
                )
            },
            Err(_) => !has_points(text::views(sources.points@)),
        },
{
    if !is_with_points(&sources.points) {
        return Err(NoAirportData);
    }
    let primary: PrimaryRunways = build_primary_rows(first, sources, &existing);
    let mut known: RowSet = existing;
    extend_existing(&mut known, &primary.rows);
    let supplementary: Vec<SupplementaryRunway> = build_supplementary_rows(
        stored,
        &sources.ils,
        &known,
    );
    Ok(RunwayPlan { primary: primary.rows, supplementary, missing: primary.missing })
}

proof fn lemma_extended_contains(
    existing: Seq<Seq<Seq<char>>>,
    keys: Seq<Seq<Seq<char>>>,
    k: int,
)
    requires
        0 <= k < keys.len(),
    ensures
        extended(existing, keys).contains(keys[k]),
    decreases keys.len(),
{
    let init = extended(existing, keys.drop_last());
    let last = keys.last();
    if k == keys.len() - 1 {
        keyed::lemma_contains_push(init, last, last);
    } else {
        lemma_extended_contains(existing, keys.drop_last(), k);
        keyed::lemma_contains_push(init, last, keys[k]);
    }
}

/// No runway is written twice: one that the tables give is not taken from the master data again.
pub proof fn supplementary_runways_are_new(
    row: StoredRunway<Seq<char>>,
    ils: Seq<StoredIls<Seq<char>>>,
    existing: Seq<Seq<Seq<char>>>,
    primary: Seq<PrimaryRunway>,
    k: int,
)
    requires
        0 <= k < primary.len(),
        supplementary_runway(row, ils, extended(existing, records::keys_of(primary))) is Some,
    ensures
        primary[k].key() != seq![row.icao, "RW"@ + row.ident],
{
    lemma_extended_contains(existing, records::keys_of(primary), k);
    assert(records::keys_of(primary)[k] == primary[k].key());
}

/// How many notes are shown.
pub const MISSING_SAMPLES: usize = 5;

/// The notes that are shown: the first few.
pub fn missing_samples(missing: &Vec<String>) -> (out: Vec<String>)
    ensures
        text::views(out@) == text::views(missing@).take(
            if missing@.len() >= MISSING_SAMPLES {
                MISSING_SAMPLES as int
            } else {
                missing@.len() as int
            },
        ),
{
    let end: usize = if missing.len() >= MISSING_SAMPLES {
        MISSING_SAMPLES
    } else {
        missing.len()
    };
    let ghost all = text::views(missing@);
    let mut out: Vec<String> = Vec::new();
    assert(text::views(out@) =~= all.take(0));
    for i in 0..end
        invariant
            end <= missing@.len(),
            all == text::views(missing@),
            text::views(out@) == all.take(i as int),
    {
        let note: String = missing[i].clone();
        proof {
            text::lemma_views_push(out@, note);
            assert(all.take(i + 1) =~= all.take(i as int).push(note@));
        }
        out.push(note);
    }
    out
}

/// What is computed for a runway: positions and bearings as bit patterns, sizes in feet, and the
/// number of its surface where that is known.
#[derive(Clone, Copy, PartialEq, Eq, Debug, Structural)]
pub struct RunwayMeasure {
    pub latitude: u64,
    pub longitude: u64,
    pub true_bearing: u64,
    pub magnetic_bearing: u64,
    pub elevation: i64,
    pub displaced: i64,
    pub length: i64,
    pub width: i64,
    pub surface: Option<i64>,
}

/// The code of a surface number; an unknown number is taken for concrete.
pub open spec fn surface_code(number: Option<i64>) -> Seq<char> {
    match number {
        None => "CONC"@,
        Some(n) => if n == 100 {
            "ASPH"@
        } else if n == 103 {
            "CONC"@
        } else if n == 19 {
            "UNPV"@
        } else if n == 5 {
            "GRVL"@
        } else {
            "UNKNOWN"@
        },
    }
}

/// The code of a surface number.
pub fn surface_code_from_num_surface(number: Option<i64>) -> (r: &'static str)
    ensures
        r@ == surface_code(number),
{
    match number {
        None => "CONC",
        Some(n) => if n == 100 {
            "ASPH"
        } else if n == 103 {
            "CONC"
        } else if n == 19 {
            "UNPV"
        } else if n == 5 {
            "GRVL"
        } else {
            "UNKNOWN"
        },
    }
}

/// A runway as it is written to the table.
#[verifier::ext_equal]
pub struct RunwayInsertRow<T = String> {
    pub airport_identifier: T,
    pub area_code: T,
    pub displaced_threshold_distance: i64,
    pub icao_code: T,
    pub landing_threshold_elevation: i64,
    pub llz_identifier: Option<T>,
    pub llz_mls_gls_category: Option<i64>,
    pub runway_gradient: u64,
    pub runway_identifier: T,
    pub runway_latitude: u64,
    pub runway_length: i64,
    pub runway_longitude: u64,
    pub runway_magnetic_bearing: u64,
    pub runway_true_bearing: u64,
    pub runway_width: i64,
    pub surface_code: T,
    pub threshold_crossing_height: i64,
    pub id: T,
}

impl View for RunwayInsertRow {
    type V = RunwayInsertRow<Seq<char>>;

    open spec fn view(&self) -> Self::V {
        RunwayInsertRow {
            airport_identifier: self.airport_identifier@,
            area_code: self.area_code@,
            displaced_threshold_distance: self.displaced_threshold_distance,
            icao_code: self.icao_code@,
            landing_threshold_elevation: self.landing_threshold_elevation,
            llz_identifier: text::opt(self.llz_identifier),
            llz_mls_gls_category: self.llz_mls_gls_category,
            runway_gradient: self.runway_gradient,
            runway_identifier: self.runway_identifier@,
            runway_latitude: self.runway_latitude,
            runway_length: self.runway_length,
            runway_longitude: self.runway_longitude,
            runway_magnetic_bearing: self.runway_magnetic_bearing,
            runway_true_bearing: self.runway_true_bearing,
            runway_width: self.runway_width,
            surface_code: self.surface_code@,
            threshold_crossing_height: self.threshold_crossing_height,
            id: self.id@,
        }
    }
}

impl Bindable for RunwayInsertRow {
    open spec fn cell(&self, variation: Option<u64>, column: Seq<char>) -> Cell<Seq<char>> {
        if column == "area_code"@ {
            Cell::Text(self@.area_code)
        } else if column == "icao_code"@ {
            Cell::Text(self@.icao_code)
        } else if column == "airport_identifier"@ {
            Cell::Text(self@.airport_identifier)
        } else if column == "runway_identifier"@ {
            Cell::Text(self@.runway_identifier)
        } else if column == "runway_latitude"@ {
            Cell::Bits(self.runway_latitude)
        } else if column == "runway_longitude"@ {
            Cell::Bits(self.runway_longitude)
        } else if column == "runway_gradient"@ {
            Cell::Bits(self.runway_gradient)
        } else if column == "runway_magnetic_bearing"@ {
            Cell::Bits(self.runway_magnetic_bearing)
        } else if column == "runway_true_bearing"@ {
            Cell::Bits(self.runway_true_bearing)
        } else if column == "landing_threshold_elevation"@ {
            Cell::Integer(self.landing_threshold_elevation)
        } else if column == "displaced_threshold_distance"@ {
            Cell::Integer(self.displaced_threshold_distance)
        } else if column == "threshold_crossing_height"@ {
            Cell::Integer(self.threshold_crossing_height)
        } else if column == "runway_length"@ {
            Cell::Integer(self.runway_length)
        } else if column == "runway_width"@ {
            Cell::Integer(self.runway_width)
        } else if column == "llz_identifier"@ {
            records::text_cell(self@.llz_identifier)
        } else if column == "llz_mls_gls_category"@ {
            records::integer_cell(self.llz_mls_gls_category)
        } else if column == "surface_code"@ {
            Cell::Text(self@.surface_code)
        } else if column == "id"@ {
            Cell::Text(self@.id)
        } else {
            Cell::Null
        }
    }

    fn make_cell(&self, variation: Option<u64>, column: &str) -> (r: Cell) {
        if text::same(column, "area_code") {
            Cell::Text(self.area_code.clone())
        } else if text::same(column, "icao_code") {
            Cell::Text(self.icao_code.clone())
        } else if text::same(column, "airport_identifier") {
            Cell::Text(self.airport_identifier.clone())
        } else if text::same(column, "runway_identifier") {
            Cell::Text(self.runway_identifier.clone())
        } else if text::same(column, "runway_latitude") {
            Cell::Bits(self.runway_latitude)
        } else if text::same(column, "runway_longitude") {
            Cell::Bits(self.runway_longitude)
        } else if text::same(column, "runway_gradient") {
            Cell::Bits(self.runway_gradient)
        } else if text::same(column, "runway_magnetic_bearing") {
            Cell::Bits(self.runway_magnetic_bearing)
        } else if text::same(column, "runway_true_bearing") {
            Cell::Bits(self.runway_true_bearing)
        } else if text::same(column, "landing_threshold_elevation") {
            Cell::Integer(self.landing_threshold_elevation)
        } else if text::same(column, "displaced_threshold_distance") {
            Cell::Integer(self.displaced_threshold_distance)
        } else if text::same(column, "threshold_crossing_height") {
            Cell::Integer(self.threshold_crossing_height)
        } else if text::same(column, "runway_length") {
            Cell::Integer(self.runway_length)
        } else if text::same(column, "runway_width") {
            Cell::Integer(self.runway_width)
        } else if text::same(column, "llz_identifier") {
            records::make_text_cell(&self.llz_identifier)
        } else if text::same(column, "llz_mls_gls_category") {
            records::make_integer_cell(self.llz_mls_gls_category)
        } else if text::same(column, "surface_code") {
            Cell::Text(self.surface_code.clone())
        } else if text::same(column, "id") {
            Cell::Text(self.id.clone())
        } else {
            Cell::Null
        }
    }
}

/// The columns of the table, in the order in which they are written.
pub open spec fn insert_columns() -> Seq<Seq<char>> {
    seq![
        "area_code"@,
        "icao_code"@,
        "airport_identifier"@,
        "runway_identifier"@,
        "runway_latitude"@,
        "runway_longitude"@,
        "runway_gradient"@,
        "runway_magnetic_bearing"@,
        "runway_true_bearing"@,
        "landing_threshold_elevation"@,
        "displaced_threshold_distance"@,
        "threshold_crossing_height"@,
        "runway_length"@,
        "runway_width"@,
        "llz_identifier"@,
        "llz_mls_gls_category"@,
        "surface_code"@,
        "id"@,
    ]
}

/// The columns of the table, in the order in which they are written.
pub fn list_insert_columns() -> (r: Vec<String>)
    ensures
        text::views(r@) == insert_columns(),
{
    let r: Vec<String> = vec![
        text::copy("area_code"),
        text::copy("icao_code"),
        text::copy("airport_identifier"),
        text::copy("runway_identifier"),
        text::copy("runway_latitude"),
        text::copy("runway_longitude"),
        text::copy("runway_gradient"),
        text::copy("runway_magnetic_bearing"),
        text::copy("runway_true_bearing"),
        text::copy("landing_threshold_elevation"),
        text::copy("displaced_threshold_distance"),
        text::copy("threshold_crossing_height"),
        text::copy("runway_length"),
        text::copy("runway_width"),
        text::copy("llz_identifier"),
        text::copy("llz_mls_gls_category"),
        text::copy("surface_code"),
        text::copy("id"),
    ];
    assert(text::views(r@) =~= insert_columns());
    r
}

/// The statements that prepare the tables: they drop what is known of airports that are no longer
/// listed, and create the table of runways.
pub open spec fn preparations() -> Seq<Seq<char>> {
    seq![
        "DELETE FROM tbl_runways WHERE airport_identifier IN ('ZL02', 'ZL03', 'ZW01', 'ZW02');"@,
        "DELETE FROM tbl_airports WHERE airport_identifier IN ('ZL02', 'ZL03', 'ZW01', 'ZW02');"@,
        "CREATE TABLE IF NOT EXISTS tbl_runways (\n        area_code TEXT(3),\n        icao_code TEXT(2),\n        airport_identifier TEXT(4) NOT NULL,\n        runway_identifier TEXT(3) NOT NULL,\n        runway_latitude DOUBLE(9),\n        runway_longitude DOUBLE(10),\n        runway_gradient DOUBLE(5),\n        runway_magnetic_bearing DOUBLE(6),\n        runway_true_bearing DOUBLE(7),\n        landing_threshold_elevation INTEGER(5),\n        displaced_threshold_distance INTEGER(4),\n        threshold_crossing_height INTEGER(2),\n        runway_length INTEGER(5),\n        runway_width INTEGER(3),\n        llz_identifier TEXT(4),\n        llz_mls_gls_category TEXT(1),\n        surface_code INTEGER(3),\n        id TEXT(15)\n    );"@,
    ]
}

/// Lists the statements that prepare the tables.
pub fn list_preparations() -> (r: Vec<String>)
    ensures
        text::views(r@) == preparations(),
{
    let r: Vec<String> = vec![
        text::copy("DELETE FROM tbl_runways WHERE airport_identifier IN ('ZL02', 'ZL03', 'ZW01', 'ZW02');"),
        text::copy("DELETE FROM tbl_airports WHERE airport_identifier IN ('ZL02', 'ZL03', 'ZW01', 'ZW02');"),
        text::copy("CREATE TABLE IF NOT EXISTS tbl_runways (\n        area_code TEXT(3),\n        icao_code TEXT(2),\n        airport_identifier TEXT(4) NOT NULL,\n        runway_identifier TEXT(3) NOT NULL,\n        runway_latitude DOUBLE(9),\n        runway_longitude DOUBLE(10),\n        runway_gradient DOUBLE(5),\n        runway_magnetic_bearing DOUBLE(6),\n        runway_true_bearing DOUBLE(7),\n        landing_threshold_elevation INTEGER(5),\n        displaced_threshold_distance INTEGER(4),\n        threshold_crossing_height INTEGER(2),\n        runway_length INTEGER(5),\n        runway_width INTEGER(3),\n        llz_identifier TEXT(4),\n        llz_mls_gls_category TEXT(1),\n        surface_code INTEGER(3),\n        id TEXT(15)\n    );")
    ];
    assert(text::views(r@) =~= preparations());
    r
}

/// The query for the positions that the master data hold.
pub fn stored_points_query() -> (r: &'static str)
    ensures
        r@ == "SELECT ICAO AS airport_icao, ident AS runway_ident, lati AS Latitude, longi AS Longtitude FROM runway"@,
{
    "SELECT ICAO AS airport_icao, ident AS runway_ident, lati AS Latitude, longi AS Longtitude FROM runway"
}

/// The query for the localizers that the master data hold.
pub fn stored_ils_query() -> (r: &'static str)
    ensures
        r@ == "SELECT rowid, ICAO, runway, ident FROM ils ORDER BY rowid"@,
{
    "SELECT rowid, ICAO, runway, ident FROM ils ORDER BY rowid"
}

/// The query for the runways that the table has.
pub fn existing_runways_query() -> (r: &'static str)
    ensures
        r@ == "SELECT airport_identifier, runway_identifier FROM tbl_runways"@,
{
    "SELECT airport_identifier, runway_identifier FROM tbl_runways"
}

/// The statement that inserts a runway.
pub fn build_insert_sql() -> (sql: String)
    ensures
        sql@ == records::fixed_insert("INSERT OR IGNORE"@, "tbl_runways"@, insert_columns()),
{
    records::fixed_insert_sql("INSERT OR IGNORE", "tbl_runways", &list_insert_columns())
}

/// The runway that is written for an airport, given what was computed.
pub open spec fn runway_insert(
    airport: Seq<char>,
    runway: Seq<char>,
    llz: Option<Seq<char>>,
    measure: RunwayMeasure,
) -> RunwayInsertRow<Seq<char>> {
    let region = region_of(airport);
    RunwayInsertRow {
        airport_identifier: airport,
        area_code: regions::waypoint_area(region),
        displaced_threshold_distance: measure.displaced,
        icao_code: region,
        landing_threshold_elevation: measure.elevation,
        llz_identifier: llz,
        llz_mls_gls_category: if llz is Some {
            Some(1)
        } else {
            None
        },
        runway_gradient: 0,
        runway_identifier: runway,
        runway_latitude: measure.latitude,
        runway_length: measure.length,
        runway_longitude: measure.longitude,
        runway_magnetic_bearing: measure.magnetic_bearing,
        runway_true_bearing: measure.true_bearing,
        runway_width: measure.width,
        surface_code: surface_code(measure.surface),
        threshold_crossing_height: 50,
        id: airport + region + runway,
    }
}

/// Lays out a runway, given what was computed for it.
pub fn make_runway_insert(airport: &str, runway: &str, llz: &Option<String>, measure: RunwayMeasure) -> (r:
    RunwayInsertRow)
    ensures
        r@ == runway_insert(airport@, runway@, text::opt(*llz), measure),
{
    let region: String = find_region(airport);
    let mut id: String = text::copy(airport);
    id.append(region.as_str());
    id.append(runway);
    let category: Option<i64> = if llz.is_some() {
        Some(1)
    } else {
        None
    };
    RunwayInsertRow {
        airport_identifier: text::copy(airport),
        area_code: text::copy(regions::waypoint_area_code(region.as_str())),
        displaced_threshold_distance: measure.displaced,
        icao_code: region,
        landing_threshold_elevation: measure.elevation,
        llz_identifier: text::copy_opt(llz),
        llz_mls_gls_category: category,
        runway_gradient: 0,
        runway_identifier: text::copy(runway),
        runway_latitude: measure.latitude,
        runway_length: measure.length,
        runway_longitude: measure.longitude,
        runway_magnetic_bearing: measure.magnetic_bearing,
        runway_true_bearing: measure.true_bearing,
        runway_width: measure.width,
        surface_code: text::copy(surface_code_from_num_surface(measure.surface)),
        threshold_crossing_height: 50,
        id,
    }
}

/// Every row of the direction table with a runway gives a direction, each property from the column
/// that is headed for it; nothing else does.
pub proof fn directions_are_read_from_their_columns(
    headers: Seq<Seq<char>>,
    rows: Seq<Seq<Seq<char>>>,
    direction: FirstCsvRow<Seq<char>>,
)
    requires
        direction_rows((headers, rows)) is Ok,
    ensures
        tables::column(headers, "RWY_ID"@) is Some,
        tables::column(headers, "TXT_DESIG"@) is Some,
        direction_rows((headers, rows))->Ok_0.contains(direction) <==> exists|k: int|
            0 <= k < rows.len() && {
                let row = #[trigger] rows[k];
                &&& tables::field(row, tables::column(headers, "RWY_ID"@)) == Some(
                    direction.rwy_id,
                )
                &&& direction.txt_desig == tables::field_or_empty(
                    row,
                    tables::column(headers, "TXT_DESIG"@),
                )
                &&& direction.val_true_brg == tables::number(
                    row,
                    tables::column(headers, "VAL_TRUE_BRG"@),
                )
                &&& direction.val_elev == tables::number(row, tables::column(headers, "VAL_ELEV"@))
                &&& direction.val_thr_displace == tables::number(
                    row,
                    tables::column(headers, "VAL_THR_DISPLACE"@),
                )
            },
{
    let columns = direction_columns(headers)->Ok_0;
    text::lemma_collect_contains(rows, direction_row(columns), direction);
    assert forall|k: int| 0 <= k < rows.len() implies (direction_row(columns)(k, #[trigger] rows[k])
        == Some(direction) <==> {
        let row = rows[k];
        &&& tables::field(row, tables::column(headers, "RWY_ID"@)) == Some(direction.rwy_id)
        &&& direction.txt_desig == tables::field_or_empty(
            row,
            tables::column(headers, "TXT_DESIG"@),
        )
        &&& direction.val_true_brg == tables::number(row, tables::column(headers, "VAL_TRUE_BRG"@))
        &&& direction.val_elev == tables::number(row, tables::column(headers, "VAL_ELEV"@))
        &&& direction.val_thr_displace == tables::number(
            row,
            tables::column(headers, "VAL_THR_DISPLACE"@),
        )
    }) by {}
}

/// Every row of the runway table with an identifier gives a runway: its length is the number in the
/// column headed `VAL_LEN`, its width that in the column headed `VAL_WID`, and so on; nothing else
/// does.
pub proof fn runways_are_read_from_their_columns(
    headers: Seq<Seq<char>>,
    rows: Seq<Seq<Seq<char>>>,
    runway: SecondCsvRow<Seq<char>>,
)
    requires
        runway_rows((headers, rows)) is Ok,
    ensures
        tables::column(headers, "RWY_ID"@) is Some,
        tables::column(headers, "CODE_AIRPORT"@) is Some,
        runway_rows((headers, rows))->Ok_0.contains(runway) <==> exists|k: int|
            0 <= k < rows.len() && {
                let row = #[trigger] rows[k];
                &&& tables::field(row, tables::column(headers, "RWY_ID"@)) == Some(runway.rwy_id)
                &&& runway.code_airport == tables::field_or_empty(
                    row,
                    tables::column(headers, "CODE_AIRPORT"@),
                )
                &&& runway.val_len == tables::number(row, tables::column(headers, "VAL_LEN"@))
                &&& runway.val_wid == tables::number(row, tables::column(headers, "VAL_WID"@))
                &&& runway.num_surface == tables::number(
                    row,
                    tables::column(headers, "NUM_SURFACE"@),
                )
            },
{
    let columns = runway_columns(headers)->Ok_0;
    text::lemma_collect_contains(rows, runway_row(columns), runway);
    assert forall|k: int| 0 <= k < rows.len() implies (runway_row(columns)(k, #[trigger] rows[k])
        == Some(runway) <==> {
        let row = rows[k];
        &&& tables::field(row, tables::column(headers, "RWY_ID"@)) == Some(runway.rwy_id)
        &&& runway.code_airport == tables::field_or_empty(
            row,
            tables::column(headers, "CODE_AIRPORT"@),
        )
        &&& runway.val_len == tables::number(row, tables::column(headers, "VAL_LEN"@))
        &&& runway.val_wid == tables::number(row, tables::column(headers, "VAL_WID"@))
        &&& runway.num_surface == tables::number(row, tables::column(headers, "NUM_SURFACE"@))
    }) by {}
}

/// A number in the column headed `VAL_LEN` is the length of the runway of its row, and one in the
/// column headed `VAL_WID` its width.
pub proof fn length_and_width_stand_under_their_headers(
    headers: Seq<Seq<char>>,
    rows: Seq<Seq<Seq<char>>>,
    k: int,
    id_at: int,
    len_at: int,
    wid_at: int,
)
    requires
        headers.len() <= usize::MAX,
        runway_rows((headers, rows)) is Ok,
        0 <= k < rows.len(),
        0 <= id_at < headers.len(),
        0 <= len_at < headers.len(),
        0 <= wid_at < headers.len(),
        rows[k].len() == headers.len(),
        headers.no_duplicates(),
        headers[id_at] == "RWY_ID"@,
        headers[len_at] == "VAL_LEN"@,
        headers[wid_at] == "VAL_WID"@,
        text::trim(Blank::Unicode, rows[k][id_at]).len() > 0,
        crate::numeric::float_literal(text::trim(Blank::Unicode, rows[k][len_at])),
        crate::numeric::float_literal(text::trim(Blank::Unicode, rows[k][wid_at])),
        text::trim(Blank::Unicode, rows[k][len_at]).len() > 0,
        text::trim(Blank::Unicode, rows[k][wid_at]).len() > 0,
    ensures
        exists|m: int|
            0 <= m < runway_rows((headers, rows))->Ok_0.len() && {
                let runway = #[trigger] runway_rows((headers, rows))->Ok_0[m];
                &&& runway.rwy_id == text::trim(Blank::Unicode, rows[k][id_at])
                &&& runway.val_len == Some(text::trim(Blank::Unicode, rows[k][len_at]))
                &&& runway.val_wid == Some(text::trim(Blank::Unicode, rows[k][wid_at]))
            },
{
    let row = rows[k];
    tables::a_column_is_found_by_the_first_header_with_its_name(headers, "RWY_ID"@);
    tables::a_column_is_found_by_the_first_header_with_its_name(headers, "VAL_LEN"@);
    tables::a_column_is_found_by_the_first_header_with_its_name(headers, "VAL_WID"@);
    assert(tables::column(headers, "RWY_ID"@) == Some(id_at as usize));
    assert(tables::column(headers, "VAL_LEN"@) == Some(len_at as usize));
    assert(tables::column(headers, "VAL_WID"@) == Some(wid_at as usize));
    let runway = SecondCsvRow {
        rwy_id: text::trim(Blank::Unicode, row[id_at]),
        code_airport: tables::field_or_empty(row, tables::column(headers, "CODE_AIRPORT"@)),
        val_len: tables::number(row, tables::column(headers, "VAL_LEN"@)),
        val_wid: tables::number(row, tables::column(headers, "VAL_WID"@)),
        num_surface: tables::number(row, tables::column(headers, "NUM_SURFACE"@)),
    };
    runways_are_read_from_their_columns(headers, rows, runway);
    assert(rows[k] == row);
    assert(runway_rows((headers, rows))->Ok_0.contains(runway));
}

/// Every row of the airport table with an identifier and a magnetic variation gives that variation.
pub proof fn variations_are_read_from_their_columns(
    headers: Seq<Seq<char>>,
    rows: Seq<Seq<Seq<char>>>,
    entry: MagvarRow<Seq<char>>,
)
    requires
        magvar_rows((headers, rows)) is Ok,
    ensures
        tables::column(headers, "CODE_ID"@) is Some,
        magvar_rows((headers, rows))->Ok_0.contains(entry) <==> exists|k: int|
            0 <= k < rows.len() && {
                let row = #[trigger] rows[k];
                &&& tables::field(row, tables::column(headers, "CODE_ID"@)) == Some(entry.code_id)
                &&& tables::number(row, tables::column(headers, "VAL_MAG_VAR"@)) == Some(
                    entry.mag_var,
                )
            },
{
    let columns = magvar_columns(headers)->Ok_0;
    text::lemma_collect_contains(rows, magvar_row(columns), entry);
    assert forall|k: int| 0 <= k < rows.len() implies (magvar_row(columns)(k, #[trigger] rows[k])
        == Some(entry) <==> {
        let row = rows[k];
        &&& tables::field(row, tables::column(headers, "CODE_ID"@)) == Some(entry.code_id)
        &&& tables::number(row, tables::column(headers, "VAL_MAG_VAR"@)) == Some(entry.mag_var)
    }) by {}
}

/// A table is refused just where it lacks a required column, and the first one that it lacks is
/// named.
pub proof fn tables_are_refused_for_a_required_column(headers: Seq<Seq<char>>)
    ensures
        direction_columns(headers) is Err <==> tables::column(headers, "RWY_ID"@) is None
            || tables::column(headers, "TXT_DESIG"@) is None,
        tables::column(headers, "RWY_ID"@) is None ==> direction_columns(headers) == Err::<
            FirstCsvRowColumns,
            TableError<Seq<char>>,
        >(TableError::MissingColumn("RWY_ID"@)) && runway_columns(headers) == Err::<
            SecondCsvRowColumns,
            TableError<Seq<char>>,
        >(TableError::MissingColumn("RWY_ID"@)),
        runway_columns(headers) is Err <==> tables::column(headers, "RWY_ID"@) is None
            || tables::column(headers, "CODE_AIRPORT"@) is None,
        tables::column(headers, "RWY_ID"@) is Some && tables::column(headers, "TXT_DESIG"@) is None
            ==> direction_columns(headers) == Err::<FirstCsvRowColumns, TableError<Seq<char>>>(
            TableError::MissingColumn("TXT_DESIG"@),
        ),
        tables::column(headers, "RWY_ID"@) is Some && tables::column(headers, "CODE_AIRPORT"@)
            is None ==> runway_columns(headers) == Err::<
            SecondCsvRowColumns,
            TableError<Seq<char>>,
        >(TableError::MissingColumn("CODE_AIRPORT"@)),
        magvar_columns(headers) is Err <==> tables::column(headers, "CODE_ID"@) is None,
        magvar_columns(headers) is Err ==> magvar_columns(headers) == Err::<
            MagvarRowColumns,
            TableError<Seq<char>>,
        >(TableError::MissingColumn("CODE_ID"@)),
{
}

/// The last runway with an identifier counts.
pub proof fn the_last_runway_with_an_identifier_counts(
    log: Seq<SecondCsvRow<Seq<char>>>,
    i: int,
)
    requires
        0 <= i < log.len(),
        forall|j: int| i < j < log.len() ==> (#[trigger] log[j]).rwy_id != log[i].rwy_id,
    ensures
        second_row(log, log[i].rwy_id) == Some(log[i]),
    decreases log.len(),
{
    if i < log.len() - 1 {
        let init = log.drop_last();
        assert(log[log.len() - 1] == log.last());
        assert(init[i] == log[i]);
        assert forall|j: int| i < j < init.len() implies (#[trigger] init[j]).rwy_id
            != init[i].rwy_id by {
            assert(init[j] == log[j]);
        }
        the_last_runway_with_an_identifier_counts(init, i);
    }
}

/// The first variation of an airport counts.
pub proof fn the_first_variation_of_an_airport_counts(log: Seq<MagvarRow<Seq<char>>>, i: int)
    requires
        0 <= i < log.len(),
        forall|j: int| 0 <= j < i ==> (#[trigger] log[j]).code_id != log[i].code_id,
    ensures
        magvar_at(log, log[i].code_id) == Some(log[i].mag_var),
    decreases log.len(),
{
    if i > 0 {
        let rest = log.skip(1);
        assert(log[0].code_id != log[i].code_id);
        assert(rest[i - 1] == log[i]);
        assert forall|j: int| 0 <= j < i - 1 implies (#[trigger] rest[j]).code_id
            != rest[i - 1].code_id by {
            assert(rest[j] == log[j + 1]);
        }
        the_first_variation_of_an_airport_counts(rest, i - 1);
    }
}

/// The position of a runway is that of the last stored row for it that has a whole position: the
/// latitude is its latitude, the longitude its longitude.
pub proof fn the_last_whole_position_of_a_runway_counts(
    log: Seq<StoredPoint<Seq<char>>>,
    i: int,
    p: Point,
)
    requires
        0 <= i < log.len(),
        log[i].icao.len() > 0,
        log[i].ident.len() > 0,
        log[i].latitude == Some(p.latitude),
        log[i].longitude == Some(p.longitude),
        forall|j: int|
            i < j < log.len() ==> (#[trigger] log[j]).icao != log[i].icao || log[j].ident
                != log[i].ident || log[j].latitude is None || log[j].longitude is None,
    ensures
        point_at(log, log[i].icao, log[i].ident) == Some(p),
    decreases log.len(),
{
    assert(stored_point(log[i]) == Some(p));
    if i < log.len() - 1 {
        let init = log.drop_last();
        assert(log[log.len() - 1] == log.last());
        assert(init[i] == log[i]);
        assert forall|j: int| i < j < init.len() implies (#[trigger] init[j]).icao != init[i].icao
            || init[j].ident != init[i].ident || init[j].latitude is None || init[j].longitude
            is None by {
            assert(init[j] == log[j]);
        }
        the_last_whole_position_of_a_runway_counts(init, i, p);
    }
}

/// A runway that is not stored with a whole position has none.
pub proof fn a_runway_that_is_not_stored_has_no_position(
    log: Seq<StoredPoint<Seq<char>>>,
    icao: Seq<char>,
    ident: Seq<char>,
)
    requires
        forall|j: int|
            0 <= j < log.len() ==> (#[trigger] log[j]).icao != icao || log[j].ident != ident
                || log[j].latitude is None || log[j].longitude is None || icao.len() == 0
                || ident.len() == 0,
    ensures
        point_at(log, icao, ident) is None,
    decreases log.len(),
{
    if log.len() > 0 {
        let init = log.drop_last();
        assert(log[log.len() - 1] == log.last());
        assert forall|j: int| 0 <= j < init.len() implies (#[trigger] init[j]).icao != icao
            || init[j].ident != ident || init[j].latitude is None || init[j].longitude is None
            || icao.len() == 0 || ident.len() == 0 by {
            assert(init[j] == log[j]);
        }
        a_runway_that_is_not_stored_has_no_position(init, icao, ident);
    }
}

/// The first localizer of a runway counts; without an identifier it is none.
pub proof fn the_first_localizer_of_a_runway_counts(log: Seq<StoredIls<Seq<char>>>, i: int)
    requires
        0 <= i < log.len(),
        log[i].icao.len() > 0,
        log[i].runway.len() > 0,
        forall|j: int|
            0 <= j < i ==> (#[trigger] log[j]).icao != log[i].icao || log[j].runway
                != log[i].runway,
    ensures
        llz_info(log, log[i].icao, log[i].runway) == (match log[i].ident {
            Some(ident) => if ident.len() > 0 {
                Some(ident)
            } else {
                None
            },
            None => None,
        }),
{
    lemma_first_ils(log, i);
}

proof fn lemma_first_ils(log: Seq<StoredIls<Seq<char>>>, i: int)
    requires
        0 <= i < log.len(),
        log[i].icao.len() > 0,
        log[i].runway.len() > 0,
        forall|j: int|
            0 <= j < i ==> (#[trigger] log[j]).icao != log[i].icao || log[j].runway
                != log[i].runway,
    ensures
        first_ils(log, log[i].icao, log[i].runway) == Some(log[i].ident),
    decreases log.len(),
{
    if i > 0 {
        let rest = log.skip(1);
        assert(log[0].icao != log[i].icao || log[0].runway != log[i].runway);
        assert(rest[i - 1] == log[i]);
        assert forall|j: int| 0 <= j < i - 1 implies (#[trigger] rest[j]).icao != rest[i - 1].icao
            || rest[j].runway != rest[i - 1].runway by {
            assert(rest[j] == log[j + 1]);
        }
        lemma_first_ils(rest, i - 1);
    }
}

/// A direction is written with the measures of its own runway and the position, variation and
/// localizer of its own airport, under a name that is the designator behind `RW`.
pub proof fn a_written_direction_is_that_of_the_tables(
    first: FirstCsvRow<Seq<char>>,
    sources: RunwaySources,
    existing: Seq<Seq<Seq<char>>>,
)
    ensures
        match primary_runway(first, sources, existing) {
            Some(written) => {
                let ident = text::trim(Blank::Unicode, first.txt_desig);
                let runway = second_row(text::views(sources.second@), first.rwy_id)->0;
                &&& second_row(text::views(sources.second@), first.rwy_id) is Some
                &&& written.airport == (if runway.code_airport.len() > 0 {
                    runway.code_airport
                } else {
                    "UNKNOWN"@
                })
                &&& written.runway_identifier == "RW"@ + ident
                &&& Some(written.point) == point_at(
                    text::views(sources.points@),
                    written.airport,
                    ident,
                )
                &&& Some(written.true_bearing) == first.val_true_brg
                &&& written.mag_var == magvar_at(text::views(sources.magvars@), written.airport)
                &&& written.elevation == first.val_elev
                &&& written.displaced == first.val_thr_displace
                &&& Some(written.length) == runway.val_len
                &&& Some(written.width) == runway.val_wid
                &&& written.num_surface == runway.num_surface
                &&& written.llz == llz_info(text::views(sources.ils@), written.airport, ident)
                &&& !existing.contains(seq![written.airport, written.runway_identifier])
                &&& !skipped_airport(written.airport)
            },
            None => true,
        },
{
}

/// A direction whose runway has a length and a width, at an airport that is not skipped, with a
/// known position and a bearing, is written unless the table has it.
pub proof fn a_known_direction_is_written_unless_it_is_there(
    first: FirstCsvRow<Seq<char>>,
    sources: RunwaySources,
    existing: Seq<Seq<Seq<char>>>,
    runway: SecondCsvRow<Seq<char>>,
)
    requires
        second_row(text::views(sources.second@), first.rwy_id) == Some(runway),
        runway.code_airport.len() > 0,
        !skipped_airport(runway.code_airport),
        runway.val_len is Some,
        runway.val_wid is Some,
        first.val_true_brg is Some,
    ensures
        ({
            let ident = text::trim(Blank::Unicode, first.txt_desig);
            let point = point_at(text::views(sources.points@), runway.code_airport, ident);
            &&& point is None ==> primary_runway(first, sources, existing) is None && missing_note(
                first,
                sources,
            ) == Some(
                "Missing coordinates for "@ + runway.code_airport + " RW"@ + ident,
            )
            &&& point is Some ==> missing_note(first, sources) is None
            &&& point is Some && existing.contains(seq![runway.code_airport, "RW"@ + ident])
                ==> primary_runway(first, sources, existing) is None
            &&& point is Some && !existing.contains(seq![runway.code_airport, "RW"@ + ident])
                ==> primary_runway(first, sources, existing) is Some
        }),
{
}

/// A runway of the master data is written as it is stored, under `RW` and its designator, where the
/// table does not have it and nothing of it is missing.
pub proof fn a_supplementary_runway_is_written_as_it_is_stored(
    row: StoredRunway<Seq<char>>,
    ils: Seq<StoredIls<Seq<char>>>,
    existing: Seq<Seq<Seq<char>>>,
)
    ensures
        match supplementary_runway(row, ils, existing) {
            Some(written) => {
                &&& written.airport == row.icao
                &&& written.runway_identifier == "RW"@ + row.ident
                &&& row.latitude == Some(written.latitude)
                &&& row.longitude == Some(written.longitude)
                &&& row.length == Some(written.length)
                &&& row.width == Some(written.width)
                &&& row.true_bearing == Some(written.true_bearing)
                &&& row.magnetic_bearing == Some(written.magnetic_bearing)
                &&& row.elevation == Some(written.elevation)
                &&& written.llz == llz_info(ils, row.icao, row.ident)
                &&& !existing.contains(seq![row.icao, "RW"@ + row.ident])
            },
            None => {
                ||| existing.contains(seq![row.icao, "RW"@ + row.ident])
                ||| row.latitude is None
                ||| row.longitude is None
                ||| row.length is None
                ||| row.width is None
                ||| row.true_bearing is None
                ||| row.magnetic_bearing is None
                ||| row.elevation is None
            },
        },
{
}

/// A runway is laid out with its measures in the places that are named for them.
pub proof fn a_runway_is_laid_out_with_its_measures(
    airport: Seq<char>,
    runway: Seq<char>,
    llz: Option<Seq<char>>,
    measure: RunwayMeasure,
)
    ensures
        ({
            let row = runway_insert(airport, runway, llz, measure);
            &&& row.airport_identifier == airport
            &&& row.runway_identifier == runway
            &&& row.runway_latitude == measure.latitude
            &&& row.runway_longitude == measure.longitude
            &&& row.runway_length == measure.length
            &&& row.runway_width == measure.width
            &&& row.runway_true_bearing == measure.true_bearing
            &&& row.runway_magnetic_bearing == measure.magnetic_bearing
            &&& row.landing_threshold_elevation == measure.elevation
            &&& row.displaced_threshold_distance == measure.displaced
            &&& row.threshold_crossing_height == 50
            &&& row.runway_gradient == 0
            &&& row.llz_identifier == llz
            &&& (row.llz_mls_gls_category == Some(1i64) <==> llz is Some)
            &&& (row.llz_mls_gls_category is None <==> llz is None)
            &&& row.icao_code == region_of(airport)
            &&& row.id == airport + region_of(airport) + runway
            &&& row.surface_code == surface_code(measure.surface)
        }),
        airport.len() >= 2 && airport[0] <= '\u{7f}' && airport[1] <= '\u{7f}' ==> runway_insert(
            airport,
            runway,
            llz,
            measure,
        ).icao_code == seq![airport[0], airport[1]],
{
    if airport.len() >= 2 {
        assert(airport.take(2) =~= seq![airport[0], airport[1]]);
    }
}

/// Every known surface has a code of its own; a missing one counts as concrete and any other as
/// unknown.
pub proof fn surfaces_have_codes_of_their_own(n: i64)
    ensures
        surface_code(Some(100)) == "ASPH"@,
        surface_code(Some(103)) == "CONC"@,
        surface_code(Some(19)) == "UNPV"@,
        surface_code(Some(5)) == "GRVL"@,
        surface_code(None) == "CONC"@,
        n != 100 && n != 103 && n != 19 && n != 5 ==> surface_code(Some(n)) == "UNKNOWN"@,
{
}

/// Every column of the table holds what it is named for.
pub proof fn every_column_holds_what_it_is_named_for(row: RunwayInsertRow, variation: Option<u64>)
    ensures
        row.cell(variation, "area_code"@) == Cell::Text(row.area_code@),
        row.cell(variation, "icao_code"@) == Cell::Text(row.icao_code@),
        row.cell(variation, "airport_identifier"@) == Cell::Text(row.airport_identifier@),
        row.cell(variation, "runway_identifier"@) == Cell::Text(row.runway_identifier@),
        row.cell(variation, "runway_latitude"@) == Cell::<Seq<char>>::Bits(row.runway_latitude),
        row.cell(variation, "runway_longitude"@) == Cell::<Seq<char>>::Bits(row.runway_longitude),
        row.cell(variation, "runway_gradient"@) == Cell::<Seq<char>>::Bits(row.runway_gradient),
        row.cell(variation, "runway_magnetic_bearing"@) == Cell::<Seq<char>>::Bits(row.runway_magnetic_bearing),
        row.cell(variation, "runway_true_bearing"@) == Cell::<Seq<char>>::Bits(row.runway_true_bearing),
        row.cell(variation, "landing_threshold_elevation"@) == Cell::<Seq<char>>::Integer(row.landing_threshold_elevation),
        row.cell(variation, "displaced_threshold_distance"@) == Cell::<Seq<char>>::Integer(row.displaced_threshold_distance),
        row.cell(variation, "threshold_crossing_height"@) == Cell::<Seq<char>>::Integer(row.threshold_crossing_height),
        row.cell(variation, "runway_length"@) == Cell::<Seq<char>>::Integer(row.runway_length),
        row.cell(variation, "runway_width"@) == Cell::<Seq<char>>::Integer(row.runway_width),
        row.cell(variation, "llz_identifier"@) == records::text_cell(text::opt(row.llz_identifier)),
        row.cell(variation, "llz_mls_gls_category"@) == records::integer_cell(row.llz_mls_gls_category),
        row.cell(variation, "surface_code"@) == Cell::Text(row.surface_code@),
        row.cell(variation, "id"@) == Cell::Text(row.id@),
{
    reveal_strlit("area_code");
    assert("area_code"@.len() == 9);
    reveal_strlit("icao_code");
    assert("icao_code"@.len() == 9);
    reveal_strlit("airport_identifier");
    assert("airport_identifier"@.len() == 18);
    reveal_strlit("runway_identifier");
    assert("runway_identifier"@.len() == 17);
    reveal_strlit("runway_latitude");
    assert("runway_latitude"@.len() == 15);
    reveal_strlit("runway_longitude");
    assert("runway_longitude"@.len() == 16);
    reveal_strlit("runway_gradient");
    assert("runway_gradient"@.len() == 15);
    reveal_strlit("runway_magnetic_bearing");
    assert("runway_magnetic_bearing"@.len() == 23);
    reveal_strlit("runway_true_bearing");
    assert("runway_true_bearing"@.len() == 19);
    reveal_strlit("landing_threshold_elevation");
    assert("landing_threshold_elevation"@.len() == 27);
    reveal_strlit("displaced_threshold_distance");
    assert("displaced_threshold_distance"@.len() == 28);
    reveal_strlit("threshold_crossing_height");
    assert("threshold_crossing_height"@.len() == 25);
    reveal_strlit("runway_length");
    assert("runway_length"@.len() == 13);
    reveal_strlit("runway_width");
    assert("runway_width"@.len() == 12);
    reveal_strlit("llz_identifier");
    assert("llz_identifier"@.len() == 14);
    reveal_strlit("llz_mls_gls_category");
    assert("llz_mls_gls_category"@.len() == 20);
    reveal_strlit("surface_code");
    assert("surface_code"@.len() == 12);
    reveal_strlit("id");
    assert("id"@.len() == 2);
    assert("area_code"@[0] != "icao_code"@[0]);
    assert("runway_latitude"@[7] != "runway_gradient"@[7]);
    assert("runway_width"@[0] != "surface_code"@[0]);
}

/// No column of the table is left out, and none is written twice.
pub proof fn every_column_is_written(row: RunwayInsertRow, variation: Option<u64>)
    ensures
        insert_columns().len() == 18,
        insert_columns().contains("area_code"@),
        insert_columns().contains("icao_code"@),
        insert_columns().contains("airport_identifier"@),
        insert_columns().contains("runway_identifier"@),
        insert_columns().contains("runway_latitude"@),
        insert_columns().contains("runway_longitude"@),
        insert_columns().contains("runway_gradient"@),
        insert_columns().contains("runway_magnetic_bearing"@),
        insert_columns().contains("runway_true_bearing"@),
        insert_columns().contains("landing_threshold_elevation"@),
        insert_columns().contains("displaced_threshold_distance"@),
        insert_columns().contains("threshold_crossing_height"@),
        insert_columns().contains("runway_length"@),
        insert_columns().contains("runway_width"@),
        insert_columns().contains("llz_identifier"@),
        insert_columns().contains("llz_mls_gls_category"@),
        insert_columns().contains("surface_code"@),
        insert_columns().contains("id"@),
        forall|i: int|
            0 <= i < insert_columns().len() ==> #[trigger] records::bound_row(row, variation, insert_columns())[i]
                == row.cell(variation, insert_columns()[i]),
{
    assert(insert_columns()[0] == "area_code"@);
    assert(insert_columns()[1] == "icao_code"@);
    assert(insert_columns()[2] == "airport_identifier"@);
    assert(insert_columns()[3] == "runway_identifier"@);
    assert(insert_columns()[4] == "runway_latitude"@);
    assert(insert_columns()[5] == "runway_longitude"@);
    assert(insert_columns()[6] == "runway_gradient"@);
    assert(insert_columns()[7] == "runway_magnetic_bearing"@);
    assert(insert_columns()[8] == "runway_true_bearing"@);
    assert(insert_columns()[9] == "landing_threshold_elevation"@);
    assert(insert_columns()[10] == "displaced_threshold_distance"@);
    assert(insert_columns()[11] == "threshold_crossing_height"@);
    assert(insert_columns()[12] == "runway_length"@);
    assert(insert_columns()[13] == "runway_width"@);
    assert(insert_columns()[14] == "llz_identifier"@);
    assert(insert_columns()[15] == "llz_mls_gls_category"@);
    assert(insert_columns()[16] == "surface_code"@);
    assert(insert_columns()[17] == "id"@);
}

/// Just the runways that can be written are, and just those without coordinates are noted.
pub proof fn every_runway_that_can_be_written_is(
    first: Seq<FirstCsvRow<Seq<char>>>,
    sources: RunwaySources,
    stored: Seq<StoredRunway<Seq<char>>>,
    existing: Seq<Seq<Seq<char>>>,
    primary: PrimaryRunway<Seq<char>>,
    note: Seq<char>,
    supplementary: SupplementaryRunway<Seq<char>>,
)
    ensures
        text::collect(first, primary_chooser(sources, existing)).contains(primary) <==> exists|
            i: int,
        |
            0 <= i < first.len() && primary_runway(#[trigger] first[i], sources, existing) == Some(
                primary,
            ),
        text::collect(first, missing_chooser(sources)).contains(note) <==> exists|i: int|
            0 <= i < first.len() && missing_note(#[trigger] first[i], sources) == Some(note),
        text::collect(
            stored,
            supplementary_chooser(text::views(sources.ils@), existing),
        ).contains(supplementary) <==> exists|i: int|
            0 <= i < stored.len() && supplementary_runway(
                #[trigger] stored[i],
                text::views(sources.ils@),
                existing,
            ) == Some(supplementary),
{
    let f = primary_chooser(sources, existing);
    let g = missing_chooser(sources);
    let h = supplementary_chooser(text::views(sources.ils@), existing);
    text::lemma_collect_contains(first, f, primary);
    text::lemma_collect_contains(first, g, note);
    text::lemma_collect_contains(stored, h, supplementary);
    assert forall|i: int| 0 <= i < first.len() implies f(i, #[trigger] first[i]) == primary_runway(
        first[i],
        sources,
        existing,
    ) && g(i, first[i]) == missing_note(first[i], sources) by {}
    assert forall|i: int| 0 <= i < stored.len() implies h(i, #[trigger] stored[i])
        == supplementary_runway(stored[i], text::views(sources.ils@), existing) by {}
}

/// Five airports get their runways from the master database, and four that are not airports are
/// removed before.
pub proof fn five_airports_are_supplemented()
    ensures
        supplementary_airports() == seq!["ZLYX"@, "ZUNZ"@, "ZURK"@, "ZLYS"@, "ZPLJ"@],
        preparations().len() == 3,
        preparations()[0]
            == "DELETE FROM tbl_runways WHERE airport_identifier IN ('ZL02', 'ZL03', 'ZW01', 'ZW02');"@,
        preparations()[1]
            == "DELETE FROM tbl_airports WHERE airport_identifier IN ('ZL02', 'ZL03', 'ZW01', 'ZW02');"@,
{
}

/// There are positions where some stored row names its airport and its runway and has both
/// coordinates.
pub proof fn positions_are_there_where_a_row_is_whole(log: Seq<StoredPoint<Seq<char>>>)
    ensures
        has_points(log) <==> exists|i: int|
            0 <= i < log.len() && (#[trigger] log[i]).latitude is Some && log[i].longitude is Some
                && log[i].icao.len() > 0 && log[i].ident.len() > 0,
{
    assert forall|i: int| 0 <= i < log.len() implies (stored_point(#[trigger] log[i]) is Some <==> (
    log[i].latitude is Some && log[i].longitude is Some && log[i].icao.len() > 0
        && log[i].ident.len() > 0)) by {}
    if exists|i: int|
        0 <= i < log.len() && (#[trigger] log[i]).latitude is Some && log[i].longitude is Some
            && log[i].icao.len() > 0 && log[i].ident.len() > 0 {
        let i = choose|i: int|
            0 <= i < log.len() && (#[trigger] log[i]).latitude is Some && log[i].longitude is Some
                && log[i].icao.len() > 0 && log[i].ident.len() > 0;
        assert(stored_point(log[i]) is Some);
    }
}

/// Every field of a `FirstCsvRow` is seen under its own name.
pub proof fn every_field_of_first_csv_row_is_seen(it: FirstCsvRow)
    ensures
        it@.rwy_id == it.rwy_id@,
        it@.txt_desig == it.txt_desig@,
        it@.val_true_brg == text::opt(it.val_true_brg),
        it@.val_elev == text::opt(it.val_elev),
        it@.val_thr_displace == text::opt(it.val_thr_displace),
{
}

/// Every field of a `SecondCsvRow` is seen under its own name.
pub proof fn every_field_of_second_csv_row_is_seen(it: SecondCsvRow)
    ensures
        it@.rwy_id == it.rwy_id@,
        it@.code_airport == it.code_airport@,
        it@.val_len == text::opt(it.val_len),
        it@.val_wid == text::opt(it.val_wid),
        it@.num_surface == text::opt(it.num_surface),
{
}

/// Every field of a `MagvarRow` is seen under its own name.
pub proof fn every_field_of_magvar_row_is_seen(it: MagvarRow)
    ensures
        it@.code_id == it.code_id@,
        it@.mag_var == it.mag_var@,
{
}

/// Every field of a `StoredPoint` is seen under its own name.
pub proof fn every_field_of_stored_point_is_seen(it: StoredPoint)
    ensures
        it@.icao == it.icao@,
        it@.ident == it.ident@,
        it@.latitude == it.latitude,
        it@.longitude == it.longitude,
{
}

/// Every field of a `StoredIls` is seen under its own name.
pub proof fn every_field_of_stored_ils_is_seen(it: StoredIls)
    ensures
        it@.icao == it.icao@,
        it@.runway == it.runway@,
        it@.ident == text::opt(it.ident),
{
}

/// Every field of a `PrimaryRunway` is seen under its own name.
pub proof fn every_field_of_primary_runway_is_seen(it: PrimaryRunway)
    ensures
        it@.airport == it.airport@,
        it@.runway_identifier == it.runway_identifier@,
        it@.point == it.point,
        it@.true_bearing == it.true_bearing@,
        it@.mag_var == text::opt(it.mag_var),
        it@.elevation == text::opt(it.elevation),
        it@.displaced == text::opt(it.displaced),
        it@.length == it.length@,
        it@.width == it.width@,
        it@.num_surface == text::opt(it.num_surface),
        it@.llz == text::opt(it.llz),
{
}

/// Every field of a `StoredRunway` is seen under its own name.
pub proof fn every_field_of_stored_runway_is_seen(it: StoredRunway)
    ensures
        it@.icao == it.icao@,
        it@.ident == it.ident@,
        it@.latitude == it.latitude,
        it@.longitude == it.longitude,
        it@.length == it.length,
        it@.width == it.width,
        it@.true_bearing == it.true_bearing,
        it@.magnetic_bearing == it.magnetic_bearing,
        it@.elevation == it.elevation,
{
}

/// Every field of a `SupplementaryRunway` is seen under its own name.
pub proof fn every_field_of_supplementary_runway_is_seen(it: SupplementaryRunway)
    ensures
        it@.airport == it.airport@,
        it@.runway_identifier == it.runway_identifier@,
        it@.latitude == it.latitude,
        it@.longitude == it.longitude,
        it@.length == it.length,
        it@.width == it.width,
        it@.true_bearing == it.true_bearing,
        it@.magnetic_bearing == it.magnetic_bearing,
        it@.elevation == it.elevation,
        it@.llz == text::opt(it.llz),
{
}

/// Every field of a `RunwayInsertRow` is seen under its own name.
pub proof fn every_field_of_runway_insert_row_is_seen(it: RunwayInsertRow)
    ensures
        it@.airport_identifier == it.airport_identifier@,
        it@.area_code == it.area_code@,
        it@.displaced_threshold_distance == it.displaced_threshold_distance,
        it@.icao_code == it.icao_code@,
        it@.landing_threshold_elevation == it.landing_threshold_elevation,
        it@.llz_identifier == text::opt(it.llz_identifier),
        it@.llz_mls_gls_category == it.llz_mls_gls_category,
        it@.runway_gradient == it.runway_gradient,
        it@.runway_identifier == it.runway_identifier@,
        it@.runway_latitude == it.runway_latitude,
        it@.runway_length == it.runway_length,
        it@.runway_longitude == it.runway_longitude,
        it@.runway_magnetic_bearing == it.runway_magnetic_bearing,
        it@.runway_true_bearing == it.runway_true_bearing,
        it@.runway_width == it.runway_width,
        it@.surface_code == it.surface_code@,
        it@.threshold_crossing_height == it.threshold_crossing_height,
        it@.id == it.id@,
{
}

/// The airports that are skipped are known by their codes, all of four letters from `Z`.
#[verifier::spinoff_prover]
#[verifier::rlimit(40)]
pub proof fn skipped_airports_are_known_by_their_codes(icao: Seq<char>)
    ensures
        skipped_airport(icao) ==> icao.len() == 4 && icao[0] == 'Z',
        skipped_airport("ZBAA"@),
        skipped_airport("ZBAD"@),
        skipped_airport("ZBDS"@),
        skipped_airport("ZBER"@),
        skipped_airport("ZBDT"@),
        skipped_airport("ZBHH"@),
        skipped_airport("ZBLA"@),
        skipped_airport("ZBMZ"@),
        skipped_airport("ZBOW"@),
        skipped_airport("ZBSJ"@),
        skipped_airport("ZBTJ"@),
        skipped_airport("ZBYC"@),
        skipped_airport("ZBYN"@),
        skipped_airport("ZGDY"@),
        skipped_airport("ZGGG"@),
        skipped_airport("ZGHA"@),
        skipped_airport("ZGKL"@),
        skipped_airport("ZGNN"@),
        skipped_airport("ZGOW"@),
        skipped_airport("ZGSZ"@),
        skipped_airport("ZGZJ"@),
        skipped_airport("ZHCC"@),
        skipped_airport("ZHEC"@),
        skipped_airport("ZHES"@),
        skipped_airport("ZHHH"@),
        skipped_airport("ZHXF"@),
        skipped_airport("ZHYC"@),
        skipped_airport("ZJHK"@),
        skipped_airport("ZJQH"@),
        skipped_airport("ZJSY"@),
        skipped_airport("ZL02"@),
        skipped_airport("ZL03"@),
        skipped_airport("ZLDH"@),
        skipped_airport("ZLIC"@),
        skipped_airport("ZLLL"@),
        skipped_airport("ZLXN"@),
        skipped_airport("ZLXY"@),
        skipped_airport("ZPJH"@),
        skipped_airport("ZPLJ"@),
        skipped_airport("ZPMS"@),
        skipped_airport("ZPPP"@),
        skipped_airport("ZSAM"@),
        skipped_airport("ZSCG"@),
        skipped_airport("ZSCN"@),
        skipped_airport("ZSFZ"@),
        skipped_airport("ZSHC"@),
        skipped_airport("ZSJN"@),
        skipped_airport("ZSLG"@),
        skipped_airport("ZSLY"@),
        skipped_airport("ZSNB"@),
        skipped_airport("ZSNJ"@),
        skipped_airport("ZSNT"@),
        skipped_airport("ZSOF"@),
        skipped_airport("ZSPD"@),
        skipped_airport("ZSQD"@),
        skipped_airport("ZSQZ"@),
        skipped_airport("ZSSH"@),
        skipped_airport("ZSSS"@),
        skipped_airport("ZSTX"@),
        skipped_airport("ZSWA"@),
        skipped_airport("ZSWH"@),
        skipped_airport("ZSWX"@),
        skipped_airport("ZSWZ"@),
        skipped_airport("ZSXZ"@),
        skipped_airport("ZSYA"@),
        skipped_airport("ZSYN"@),
        skipped_airport("ZSYT"@),
        skipped_airport("ZSYW"@),
        skipped_airport("ZSZS"@),
        skipped_airport("ZUCK"@),
        skipped_airport("ZUGY"@),
        skipped_airport("ZULS"@),
        skipped_airport("ZUTF"@),
        skipped_airport("ZUUU"@),
        skipped_airport("ZUXC"@),
        skipped_airport("ZW01"@),
        skipped_airport("ZW02"@),
        skipped_airport("ZWSH"@),
        skipped_airport("ZWTN"@),
        skipped_airport("ZWWW"@),
        skipped_airport("ZWYN"@),
        skipped_airport("ZYCC"@),
        skipped_airport("ZYHB"@),
        skipped_airport("ZYJM"@),
        skipped_airport("ZYMD"@),
        skipped_airport("ZYQQ"@),
        skipped_airport("ZYTL"@),
        skipped_airport("ZYTX"@),
        skipped_airport("ZYYJ"@),
{
    reveal_strlit("ZBAA");
    assert("ZBAA"@.len() == 4 && "ZBAA"@[0] == 'Z');
    reveal_strlit("ZBAD");
    assert("ZBAD"@.len() == 4 && "ZBAD"@[0] == 'Z');
    reveal_strlit("ZBDS");
    assert("ZBDS"@.len() == 4 && "ZBDS"@[0] == 'Z');
    reveal_strlit("ZBER");
    assert("ZBER"@.len() == 4 && "ZBER"@[0] == 'Z');
    reveal_strlit("ZBDT");
    assert("ZBDT"@.len() == 4 && "ZBDT"@[0] == 'Z');
    reveal_strlit("ZBHH");
    assert("ZBHH"@.len() == 4 && "ZBHH"@[0] == 'Z');
    reveal_strlit("ZBLA");
    assert("ZBLA"@.len() == 4 && "ZBLA"@[0] == 'Z');
    reveal_strlit("ZBMZ");
    assert("ZBMZ"@.len() == 4 && "ZBMZ"@[0] == 'Z');
    reveal_strlit("ZBOW");
    assert("ZBOW"@.len() == 4 && "ZBOW"@[0] == 'Z');
    reveal_strlit("ZBSJ");
    assert("ZBSJ"@.len() == 4 && "ZBSJ"@[0] == 'Z');
    reveal_strlit("ZBTJ");
    assert("ZBTJ"@.len() == 4 && "ZBTJ"@[0] == 'Z');
    reveal_strlit("ZBYC");
    assert("ZBYC"@.len() == 4 && "ZBYC"@[0] == 'Z');
    reveal_strlit("ZBYN");
    assert("ZBYN"@.len() == 4 && "ZBYN"@[0] == 'Z');
    reveal_strlit("ZGDY");
    assert("ZGDY"@.len() == 4 && "ZGDY"@[0] == 'Z');
    reveal_strlit("ZGGG");
    assert("ZGGG"@.len() == 4 && "ZGGG"@[0] == 'Z');
    reveal_strlit("ZGHA");
    assert("ZGHA"@.len() == 4 && "ZGHA"@[0] == 'Z');
    reveal_strlit("ZGKL");
    assert("ZGKL"@.len() == 4 && "ZGKL"@[0] == 'Z');
    reveal_strlit("ZGNN");
    assert("ZGNN"@.len() == 4 && "ZGNN"@[0] == 'Z');
    reveal_strlit("ZGOW");
    assert("ZGOW"@.len() == 4 && "ZGOW"@[0] == 'Z');
    reveal_strlit("ZGSZ");
    assert("ZGSZ"@.len() == 4 && "ZGSZ"@[0] == 'Z');
    reveal_strlit("ZGZJ");
    assert("ZGZJ"@.len() == 4 && "ZGZJ"@[0] == 'Z');
    reveal_strlit("ZHCC");
    assert("ZHCC"@.len() == 4 && "ZHCC"@[0] == 'Z');
    reveal_strlit("ZHEC");
    assert("ZHEC"@.len() == 4 && "ZHEC"@[0] == 'Z');
    reveal_strlit("ZHES");
    assert("ZHES"@.len() == 4 && "ZHES"@[0] == 'Z');
    reveal_strlit("ZHHH");
    assert("ZHHH"@.len() == 4 && "ZHHH"@[0] == 'Z');
    reveal_strlit("ZHXF");
    assert("ZHXF"@.len() == 4 && "ZHXF"@[0] == 'Z');
    reveal_strlit("ZHYC");
    assert("ZHYC"@.len() == 4 && "ZHYC"@[0] == 'Z');
    reveal_strlit("ZJHK");
    assert("ZJHK"@.len() == 4 && "ZJHK"@[0] == 'Z');
    reveal_strlit("ZJQH");
    assert("ZJQH"@.len() == 4 && "ZJQH"@[0] == 'Z');
    reveal_strlit("ZJSY");
    assert("ZJSY"@.len() == 4 && "ZJSY"@[0] == 'Z');
    reveal_strlit("ZL02");
    assert("ZL02"@.len() == 4 && "ZL02"@[0] == 'Z');
    reveal_strlit("ZL03");
    assert("ZL03"@.len() == 4 && "ZL03"@[0] == 'Z');
    reveal_strlit("ZLDH");
    assert("ZLDH"@.len() == 4 && "ZLDH"@[0] == 'Z');
    reveal_strlit("ZLIC");
    assert("ZLIC"@.len() == 4 && "ZLIC"@[0] == 'Z');
    reveal_strlit("ZLLL");
    assert("ZLLL"@.len() == 4 && "ZLLL"@[0] == 'Z');
    reveal_strlit("ZLXN");
    assert("ZLXN"@.len() == 4 && "ZLXN"@[0] == 'Z');
    reveal_strlit("ZLXY");
    assert("ZLXY"@.len() == 4 && "ZLXY"@[0] == 'Z');
    reveal_strlit("ZPJH");
    assert("ZPJH"@.len() == 4 && "ZPJH"@[0] == 'Z');
    reveal_strlit("ZPLJ");
    assert("ZPLJ"@.len() == 4 && "ZPLJ"@[0] == 'Z');
    reveal_strlit("ZPMS");
    assert("ZPMS"@.len() == 4 && "ZPMS"@[0] == 'Z');
    reveal_strlit("ZPPP");
    assert("ZPPP"@.len() == 4 && "ZPPP"@[0] == 'Z');
    reveal_strlit("ZSAM");
    assert("ZSAM"@.len() == 4 && "ZSAM"@[0] == 'Z');
    reveal_strlit("ZSCG");
    assert("ZSCG"@.len() == 4 && "ZSCG"@[0] == 'Z');
    reveal_strlit("ZSCN");
    assert("ZSCN"@.len() == 4 && "ZSCN"@[0] == 'Z');
    reveal_strlit("ZSFZ");
    assert("ZSFZ"@.len() == 4 && "ZSFZ"@[0] == 'Z');
    reveal_strlit("ZSHC");
    assert("ZSHC"@.len() == 4 && "ZSHC"@[0] == 'Z');
    reveal_strlit("ZSJN");
    assert("ZSJN"@.len() == 4 && "ZSJN"@[0] == 'Z');
    reveal_strlit("ZSLG");
    assert("ZSLG"@.len() == 4 && "ZSLG"@[0] == 'Z');
    reveal_strlit("ZSLY");
    assert("ZSLY"@.len() == 4 && "ZSLY"@[0] == 'Z');
    reveal_strlit("ZSNB");
    assert("ZSNB"@.len() == 4 && "ZSNB"@[0] == 'Z');
    reveal_strlit("ZSNJ");
    assert("ZSNJ"@.len() == 4 && "ZSNJ"@[0] == 'Z');
    reveal_strlit("ZSNT");
    assert("ZSNT"@.len() == 4 && "ZSNT"@[0] == 'Z');
    reveal_strlit("ZSOF");
    assert("ZSOF"@.len() == 4 && "ZSOF"@[0] == 'Z');
    reveal_strlit("ZSPD");
    assert("ZSPD"@.len() == 4 && "ZSPD"@[0] == 'Z');
    reveal_strlit("ZSQD");
    assert("ZSQD"@.len() == 4 && "ZSQD"@[0] == 'Z');
    reveal_strlit("ZSQZ");
    assert("ZSQZ"@.len() == 4 && "ZSQZ"@[0] == 'Z');
    reveal_strlit("ZSSH");
    assert("ZSSH"@.len() == 4 && "ZSSH"@[0] == 'Z');
    reveal_strlit("ZSSS");
    assert("ZSSS"@.len() == 4 && "ZSSS"@[0] == 'Z');
    reveal_strlit("ZSTX");
    assert("ZSTX"@.len() == 4 && "ZSTX"@[0] == 'Z');
    reveal_strlit("ZSWA");
    assert("ZSWA"@.len() == 4 && "ZSWA"@[0] == 'Z');
    reveal_strlit("ZSWH");
    assert("ZSWH"@.len() == 4 && "ZSWH"@[0] == 'Z');
    reveal_strlit("ZSWX");
    assert("ZSWX"@.len() == 4 && "ZSWX"@[0] == 'Z');
    reveal_strlit("ZSWZ");
    assert("ZSWZ"@.len() == 4 && "ZSWZ"@[0] == 'Z');
    reveal_strlit("ZSXZ");
    assert("ZSXZ"@.len() == 4 && "ZSXZ"@[0] == 'Z');
    reveal_strlit("ZSYA");
    assert("ZSYA"@.len() == 4 && "ZSYA"@[0] == 'Z');
    reveal_strlit("ZSYN");
    assert("ZSYN"@.len() == 4 && "ZSYN"@[0] == 'Z');
    reveal_strlit("ZSYT");
    assert("ZSYT"@.len() == 4 && "ZSYT"@[0] == 'Z');
    reveal_strlit("ZSYW");
    assert("ZSYW"@.len() == 4 && "ZSYW"@[0] == 'Z');
    reveal_strlit("ZSZS");
    assert("ZSZS"@.len() == 4 && "ZSZS"@[0] == 'Z');
    reveal_strlit("ZUCK");
    assert("ZUCK"@.len() == 4 && "ZUCK"@[0] == 'Z');
    reveal_strlit("ZUGY");
    assert("ZUGY"@.len() == 4 && "ZUGY"@[0] == 'Z');
    reveal_strlit("ZULS");
    assert("ZULS"@.len() == 4 && "ZULS"@[0] == 'Z');
    reveal_strlit("ZUTF");
    assert("ZUTF"@.len() == 4 && "ZUTF"@[0] == 'Z');
    reveal_strlit("ZUUU");
    assert("ZUUU"@.len() == 4 && "ZUUU"@[0] == 'Z');
    reveal_strlit("ZUXC");
    assert("ZUXC"@.len() == 4 && "ZUXC"@[0] == 'Z');
    reveal_strlit("ZW01");
    assert("ZW01"@.len() == 4 && "ZW01"@[0] == 'Z');
    reveal_strlit("ZW02");
    assert("ZW02"@.len() == 4 && "ZW02"@[0] == 'Z');
    reveal_strlit("ZWSH");
    assert("ZWSH"@.len() == 4 && "ZWSH"@[0] == 'Z');
    reveal_strlit("ZWTN");
    assert("ZWTN"@.len() == 4 && "ZWTN"@[0] == 'Z');
    reveal_strlit("ZWWW");
    assert("ZWWW"@.len() == 4 && "ZWWW"@[0] == 'Z');
    reveal_strlit("ZWYN");
    assert("ZWYN"@.len() == 4 && "ZWYN"@[0] == 'Z');
    reveal_strlit("ZYCC");
    assert("ZYCC"@.len() == 4 && "ZYCC"@[0] == 'Z');
    reveal_strlit("ZYHB");
    assert("ZYHB"@.len() == 4 && "ZYHB"@[0] == 'Z');
    reveal_strlit("ZYJM");
    assert("ZYJM"@.len() == 4 && "ZYJM"@[0] == 'Z');
    reveal_strlit("ZYMD");
    assert("ZYMD"@.len() == 4 && "ZYMD"@[0] == 'Z');
    reveal_strlit("ZYQQ");
    assert("ZYQQ"@.len() == 4 && "ZYQQ"@[0] == 'Z');
    reveal_strlit("ZYTL");
    assert("ZYTL"@.len() == 4 && "ZYTL"@[0] == 'Z');
    reveal_strlit("ZYTX");
    assert("ZYTX"@.len() == 4 && "ZYTX"@[0] == 'Z');
    reveal_strlit("ZYYJ");
    assert("ZYYJ"@.len() == 4 && "ZYYJ"@[0] == 'Z');
}

/// The table of runways is made with the columns that are written.
pub proof fn the_table_of_runways_is_made()
    ensures
        preparations()[2]
            == "CREATE TABLE IF NOT EXISTS tbl_runways (\n        area_code TEXT(3),\n        icao_code TEXT(2),\n        airport_identifier TEXT(4) NOT NULL,\n        runway_identifier TEXT(3) NOT NULL,\n        runway_latitude DOUBLE(9),\n        runway_longitude DOUBLE(10),\n        runway_gradient DOUBLE(5),\n        runway_magnetic_bearing DOUBLE(6),\n        runway_true_bearing DOUBLE(7),\n        landing_threshold_elevation INTEGER(5),\n        displaced_threshold_distance INTEGER(4),\n        threshold_crossing_height INTEGER(2),\n        runway_length INTEGER(5),\n        runway_width INTEGER(3),\n        llz_identifier TEXT(4),\n        llz_mls_gls_category TEXT(1),\n        surface_code INTEGER(3),\n        id TEXT(15)\n    );"@,
{
}

/// The region of an airport is the first two bytes of its code where they end a character, and
/// unknown else.
pub proof fn regions_are_the_first_two_bytes_of_a_code(airport: Seq<char>)
    ensures
        airport.len() >= 2 && (airport[0] as int) < 128 && (airport[1] as int) < 128 ==> region_of(
            airport,
        ) == seq![airport[0], airport[1]],
        airport.len() >= 1 && 128 <= (airport[0] as int) < 2048 ==> region_of(airport) == seq![
            airport[0],
        ],
        airport.len() == 0 || (airport.len() == 1 && (airport[0] as int) < 128) || (
        airport[0] as int) >= 2048 || (airport.len() >= 2 && (airport[0] as int) < 128 && (
        airport[1] as int) >= 128) ==> region_of(airport) == "UN"@,
{
    if airport.len() >= 2 {
        assert(airport.take(2) =~= seq![airport[0], airport[1]]);
    }
    if airport.len() >= 1 {
        assert(airport.take(1) =~= seq![airport[0]]);
    }
}

} // verus!
