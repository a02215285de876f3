//! Airports: reading their table, spelling their names and laying out new ones.

use crate::db::Cell;
use crate::decode;
use crate::keyed;
use crate::keyed::RowSet;
use crate::names;
use crate::numeric;
use crate::records;
use crate::records::{Bindable, Record};
use crate::tables;
use crate::tables::{CsvTable, TableError};
use crate::text;
use crate::text::Blank;
use vstd::prelude::*;

verus! {

/// An angle in degrees, minutes and seconds, each as a checked literal. It is negative south of
/// the equator and west of the prime meridian.
#[verifier::ext_equal]
pub struct Dms<T = String> {
    pub negative: bool,
    pub degrees: T,
    pub minutes: T,
    pub seconds: T,
}

impl View for Dms {
    type V = Dms<Seq<char>>;

    open spec fn view(&self) -> Self::V {
        Dms {
            negative: self.negative,
            degrees: self.degrees@,
            minutes: self.minutes@,
            seconds: self.seconds@,
        }
    }
}

/// How many digits the degrees have behind a direction: two north and south, three east and west.
pub open spec fn degree_digits(direction: char) -> Option<int> {
    if direction == 'N' || direction == 'S' {
        Some(2)
    } else if direction == 'E' || direction == 'W' {
        Some(3)
    } else {
        None
    }
}

/// The angle that a text gives: a direction, degrees, two digits of minutes, and seconds.
pub open spec fn dms(s: Seq<char>) -> Option<Dms<Seq<char>>> {
    if s.len() < 7 {
        None
    } else {
        match degree_digits(s[0]) {
            Some(n) => {
                let angle = Dms {
                    negative: s[0] == 'S' || s[0] == 'W',
                    degrees: s.subrange(1, 1 + n),
                    minutes: s.subrange(1 + n, 3 + n),
                    seconds: s.skip(3 + n),
                };
                if numeric::float_literal(angle.degrees) && numeric::float_literal(angle.minutes)
                    && numeric::float_literal(angle.seconds) {
                    Some(angle)
                } else {
                    None
                }
            },
            None => None,
        }
    }
}

/// Reads an angle in degrees, minutes and seconds.
pub fn parse_dms(value: &str) -> (r: Option<Dms>)
    ensures
        text::opt(r) == dms(value@),
{
    let cs: Vec<char> = text::chars_of(value);
    if cs.len() < 7 {
        return None;
    }
    let direction: char = cs[0];
    let n: usize = if direction == 'N' || direction == 'S' {
        2
    } else if direction == 'E' || direction == 'W' {
        3
    } else {
        return None;
    };
    let degrees: String = text::text_of(&cs, 1, 1 + n);
    let minutes: String = text::text_of(&cs, 1 + n, 3 + n);
    let seconds: String = text::text_of(&cs, 3 + n, cs.len());
    assert(seconds@ == value@.skip(3 + n));
    if numeric::is_float_literal(degrees.as_str()) && numeric::is_float_literal(minutes.as_str())
        && numeric::is_float_literal(seconds.as_str()) {
        Some(Dms { negative: direction == 'S' || direction == 'W', degrees, minutes, seconds })
    } else {
        None
    }
}

/// Reads a list of angles; each one that is missing or malformed gives none.
pub fn parse_dms_list(values: &Vec<Option<String>>) -> (out: Vec<Option<Dms>>)
    ensures
        out@.len() == values@.len(),
        forall|i: int|
            0 <= i < out@.len() ==> text::opt(#[trigger] out@[i]) == (match values@[i] {
                Some(value) => dms(value@),
                None => None,
            }),
{
    let mut out: Vec<Option<Dms>> = Vec::new();
    for i in 0..values.len()
        invariant
            out@.len() == i,
            forall|k: int|
                0 <= k < i ==> text::opt(#[trigger] out@[k]) == (match values@[k] {
                    Some(value) => dms(value@),
                    None => None,
                }),
    {
        let angle: Option<Dms> = match &values[i] {
            Some(value) => parse_dms(value.as_str()),
            None => None,
        };
        out.push(angle);
    }
    out
}

/// The spelling of names that are not spelled character by character.
pub open spec fn special_phrase(value: Seq<char>) -> Option<Seq<char>> {
    let name = text::trim(Blank::Unicode, value);
    if name == "\u{5415}\u{6881}"@ {
        Some("L\u{dc}LIANG"@)
    } else if name == "\u{4e09}\u{5973}\u{6cb3}"@ {
        Some("SANN\u{dc}HE"@)
    } else if name == "\u{4ed9}\u{5973}\u{5c71}"@ {
        Some("XIANN\u{dc}SHAN"@)
    } else if name == "\u{91cd}\u{5e86}"@ {
        Some("CHONGQING"@)
    } else if name == "\u{9f9f}\u{5179}"@ {
        Some("QIUCI"@)
    } else if name == "\u{957f}\u{5b89}"@ {
        Some("CHANGAN"@)
    } else if name == "\u{957f}\u{767d}\u{5c71}"@ {
        Some("CHANGBAISHAN"@)
    } else if name == "\u{671d}\u{9633}"@ {
        Some("CHAOYANG"@)
    } else {
        None
    }
}

/// Looks up a name that is not spelled character by character.
pub fn special_phrase_pinyin(value: &str) -> (r: Option<&'static str>)
    ensures
        text::opt(r) == special_phrase(value@),
{
    let trimmed: String = text::trimmed(Blank::Unicode, value);
    let name: &str = trimmed.as_str();
    if text::same(name, "\u{5415}\u{6881}") {
        Some("L\u{dc}LIANG")
    } else if text::same(name, "\u{4e09}\u{5973}\u{6cb3}") {
        Some("SANN\u{dc}HE")
    } else if text::same(name, "\u{4ed9}\u{5973}\u{5c71}") {
        Some("XIANN\u{dc}SHAN")
    } else if text::same(name, "\u{91cd}\u{5e86}") {
        Some("CHONGQING")
    } else if text::same(name, "\u{9f9f}\u{5179}") {
        Some("QIUCI")
    } else if text::same(name, "\u{957f}\u{5b89}") {
        Some("CHANGAN")
    } else if text::same(name, "\u{957f}\u{767d}\u{5c71}") {
        Some("CHANGBAISHAN")
    } else if text::same(name, "\u{671d}\u{9633}") {
        Some("CHAOYANG")
    } else {
        None
    }
}

/// The spelling of a character of an airport name: two characters keep their umlaut.
pub open spec fn airport_spelled(c: char) -> Seq<char> {
    if c == '\u{5415}' {
        seq!['L', '\u{dc}']
    } else if c == '\u{5973}' {
        seq!['N', '\u{dc}']
    } else {
        names::spelled(c)
    }
}

/// The spelling of an airport name, character by character.
pub open spec fn airport_speller() -> spec_fn(int, char) -> Seq<char> {
    |i: int, c: char| airport_spelled(c)
}

/// The spelling of an airport name in upper-case letters.
pub open spec fn airport_pinyin(value: Seq<char>) -> Seq<char> {
    match special_phrase(value) {
        Some(phrase) => phrase,
        None => names::upper_text(text::flat_collect(value, airport_speller())),
    }
}

/// Spells an airport name in upper-case letters.
pub fn to_upper_pinyin(value: &str) -> (r: String)
    ensures
        r@ == airport_pinyin(value@),
{
    match special_phrase_pinyin(value) {
        Some(phrase) => return text::copy(phrase),
        None => {},
    }
    let cs: Vec<char> = text::chars_of(value);
    let ghost f = airport_speller();
    let mut out: String = String::new();
    assert(cs@.take(0).len() == 0);
    assert(out@ =~= text::flat_collect(cs@.take(0), f));
    for i in 0..cs.len()
        invariant
            f == airport_speller(),
            out@ == text::flat_collect(cs@.take(i as int), f),
    {
        let ghost before = out@;
        proof {
            text::lemma_flat_collect_step(cs@, f, i as int);
        }
        let c: char = cs[i];
        if c == '\u{5415}' {
            out.push('L');
            out.push('\u{dc}');
        } else if c == '\u{5973}' {
            out.push('N');
            out.push('\u{dc}');
        } else {
            let part: String = names::spell_char(c);
            out.append(part.as_str());
        }
        assert(out@ =~= before + airport_spelled(c));
    }
    assert(cs@.take(cs@.len() as int) == value@);
    names::to_upper_text(out.as_str())
}

/// The choice of the parts of a name that are not blank, without blanks around.
pub open spec fn part_chooser() -> spec_fn(int, Seq<char>) -> Option<Seq<char>> {
    |i: int, part: Seq<char>|
        {
            let trimmed = text::trim(Blank::Unicode, part);
            if trimmed.len() > 0 {
                Some(trimmed)
            } else {
                None
            }
        }
}

/// The parts of a name between slashes that are not blank.
pub open spec fn name_parts(name: Seq<char>) -> Seq<Seq<char>> {
    text::collect(text::split(text::trim(Blank::Unicode, name), '/'), part_chooser())
}

/// Splits a name into its parts.
pub fn split_name(name: &str) -> (out: Vec<String>)
    ensures
        text::views(out@) == name_parts(name@),
{
    let trimmed: String = text::trimmed(Blank::Unicode, name);
    let pieces: Vec<String> = text::split_at_char(&text::chars_of(trimmed.as_str()), '/');
    let ghost all = text::views(pieces@);
    let ghost f = part_chooser();
    let mut out: Vec<String> = Vec::new();
    assert(all.take(0).len() == 0);
    assert(text::views(out@) =~= text::collect(all.take(0), f));
    for i in 0..pieces.len()
        invariant
            all == text::views(pieces@),
            f == part_chooser(),
            text::views(out@) == text::collect(all.take(i as int), f),
    {
        proof {
            text::lemma_collect_step(all, f, i as int);
            assert(all[i as int] == pieces@[i as int]@);
        }
        let part: String = text::trimmed(Blank::Unicode, pieces[i].as_str());
        if !text::is_empty(part.as_str()) {
            proof {
                text::lemma_views_push(out@, part);
            }
            out.push(part);
        }
    }
    assert(all.take(pieces@.len() as int) == all);
    out
}

/// City and airport of a name, given its parts as they are spelled: the first part is the city,
/// the second the airport; with one part both are the same, with none they are unknown.
pub open spec fn city_and_airport(parts: Seq<Seq<char>>) -> (Seq<char>, Seq<char>) {
    if parts.len() == 0 {
        ("UNKNOWN"@, "UNKNOWN"@)
    } else if parts.len() == 1 {
        (parts[0], parts[0])
    } else {
        (parts[0], parts[1])
    }
}

/// Takes city and airport from the spelled parts of a name.
pub fn choose_names(parts: &Vec<String>) -> (r: (String, String))
    ensures
        (r.0@, r.1@) == city_and_airport(text::views(parts@)),
{
    if parts.len() == 0 {
        (text::copy("UNKNOWN"), text::copy("UNKNOWN"))
    } else if parts.len() == 1 {
        (parts[0].clone(), parts[0].clone())
    } else {
        (parts[0].clone(), parts[1].clone())
    }
}

/// The city and the airport that a name gives.
pub open spec fn parsed_names(name: Option<Seq<char>>) -> (Seq<char>, Seq<char>) {
    match name {
        Some(value) => city_and_airport(
            name_parts(value).map_values(|part: Seq<char>| airport_pinyin(part)),
        ),
        None => city_and_airport(seq![]),
    }
}

/// Reads the city and the airport from a name.
pub fn parse_names(name: Option<&str>) -> (r: (String, String))
    ensures
        (r.0@, r.1@) == parsed_names(text::opt(name)),
{
    let mut spelled: Vec<String> = Vec::new();
    match name {
        Some(value) => {
            let parts: Vec<String> = split_name(value);
            let ghost goal = name_parts(value@).map_values(
                |part: Seq<char>| airport_pinyin(part),
            );
            assert(text::views(spelled@) =~= goal.take(0));
            for i in 0..parts.len()
                invariant
                    goal == text::views(parts@).map_values(
                        |part: Seq<char>| airport_pinyin(part),
                    ),
                    text::views(spelled@) == goal.take(i as int),
            {
                let part: String = to_upper_pinyin(parts[i].as_str());
                proof {
                    text::lemma_views_push(spelled@, part);
                    assert(goal.take(i + 1) =~= goal.take(i as int).push(part@));
                }
                spelled.push(part);
            }
            assert(goal.take(parts@.len() as int) == goal);
        },
        None => {
            assert(text::views(spelled@) =~= seq![]);
        },
    }
    choose_names(&spelled)
}

/// A row of the airport table. Altitudes are checked literals in meters.
#[verifier::ext_equal]
pub struct AirportCsvRow<T = String, D = Dms> {
    pub code_id: T,
    pub code_iata: Option<T>,
    pub txt_name: Option<T>,
    pub latitude: D,
    pub longitude: D,
    pub val_elev: Option<T>,
    pub val_transition_alt: Option<T>,
    pub val_transition_level: Option<T>,
}

impl View for AirportCsvRow {
    type V = AirportCsvRow<Seq<char>, Dms<Seq<char>>>;

    open spec fn view(&self) -> Self::V {
        AirportCsvRow {
            code_id: self.code_id@,
            code_iata: text::opt(self.code_iata),
            txt_name: text::opt(self.txt_name),
            latitude: self.latitude@,
            longitude: self.longitude@,
            val_elev: text::opt(self.val_elev),
            val_transition_alt: text::opt(self.val_transition_alt),
            val_transition_level: text::opt(self.val_transition_level),
        }
    }
}

/// The columns of the airport table; those that may be missing are optional.
#[derive(Clone, Copy, PartialEq, Eq, Debug, Structural)]
pub struct AirportColumns {
    pub code_id: usize,
    pub txt_name: Option<usize>,
    pub code_iata: Option<usize>,
    pub latitude: usize,
    pub longitude: usize,
    pub elevation: Option<usize>,
    pub transition_alt: Option<usize>,
    pub transition_level: Option<usize>,
}

/// The columns that headers name, or the first required one that they lack.
pub open spec fn airport_columns(headers: Seq<Seq<char>>) -> Result<
    AirportColumns,
    TableError<Seq<char>>,
> {
    match (
        tables::column(headers, "CODE_ID"@),
        tables::column(headers, "GEO_LAT_ACCURACY"@),
        tables::column(headers, "GEO_LONG_ACCURACY"@),
    ) {
        (Some(code_id), Some(latitude), Some(longitude)) => Ok(
            AirportColumns {
                code_id,
                txt_name: tables::column(headers, "TXT_NAME"@),
                code_iata: tables::column(headers, "CODE_IATA"@),
                latitude,
                longitude,
                elevation: tables::column(headers, "VAL_ELEV"@),
                transition_alt: tables::column(headers, "VAL_TRANSITION_ALT"@),
                transition_level: tables::column(headers, "VAL_TRANSITION_LEVEL"@),
            },
        ),
        (None, _, _) => Err(TableError::MissingColumn("CODE_ID"@)),
        (_, None, _) => Err(TableError::MissingColumn("GEO_LAT_ACCURACY"@)),
        (_, _, None) => Err(TableError::MissingColumn("GEO_LONG_ACCURACY"@)),
    }
}

/// The airport in a row of the table: one with an identifier and a position.
pub open spec fn airport_row(columns: AirportColumns) -> spec_fn(int, Seq<Seq<char>>) -> Option<
    AirportCsvRow<Seq<char>, Dms<Seq<char>>>,
> {
    |i: int, row: Seq<Seq<char>>|
        match (
            tables::field(row, Some(columns.code_id)),
            tables::field(row, Some(columns.latitude)),
            tables::field(row, Some(columns.longitude)),
        ) {
            (Some(code_id), Some(latitude), Some(longitude)) => match (
                dms(latitude),
                dms(longitude),
            ) {
                (Some(latitude), Some(longitude)) => Some(
                    AirportCsvRow {
                        code_id,
                        code_iata: tables::field(row, columns.code_iata),
                        txt_name: tables::field(row, columns.txt_name),
                        latitude,
                        longitude,
                        val_elev: tables::number(row, columns.elevation),
                        val_transition_alt: tables::number(row, columns.transition_alt),
                        val_transition_level: tables::number(row, columns.transition_level),
                    },
                ),
                _ => None,
            },
            _ => None,
        }
}

/// The airports that a table gives.
pub open spec fn airport_rows(table: (Seq<Seq<char>>, Seq<Seq<Seq<char>>>)) -> Result<
    Seq<AirportCsvRow<Seq<char>, Dms<Seq<char>>>>,
    TableError<Seq<char>>,
> {
    match airport_columns(table.0) {
        Ok(columns) => Ok(text::collect(table.1, airport_row(columns))),
        Err(error) => Err(error),
    }
}

/// The view of the outcome of reading a table of airports.
pub open spec fn outcome(r: Result<Vec<AirportCsvRow>, TableError>) -> Result<
    Seq<AirportCsvRow<Seq<char>, Dms<Seq<char>>>>,
    TableError<Seq<char>>,
> {
    match r {
        Ok(rows) => Ok(text::views(rows@)),
        Err(error) => Err(error@),
    }
}

fn find_columns(headers: &Vec<String>) -> (r: Result<AirportColumns, TableError>)
    ensures
        match r {
            Ok(columns) => airport_columns(text::views(headers@)) == Ok::<
                AirportColumns,
                TableError<Seq<char>>,
            >(columns),
            Err(error) => airport_columns(text::views(headers@)) == Err::<
                AirportColumns,
                TableError<Seq<char>>,
            >(error@),
        },
{
    let code_id: usize = match tables::required_index(headers, "CODE_ID") {
        Ok(position) => position,
        Err(error) => return Err(error),
    };
    let latitude: usize = match tables::required_index(headers, "GEO_LAT_ACCURACY") {
        Ok(position) => position,
        Err(error) => return Err(error),
    };
    let longitude: usize = match tables::required_index(headers, "GEO_LONG_ACCURACY") {
        Ok(position) => position,
        Err(error) => return Err(error),
    };
    Ok(
        AirportColumns {
            code_id,
            txt_name: tables::optional_index(headers, "TXT_NAME"),
            code_iata: tables::optional_index(headers, "CODE_IATA"),
            latitude,
            longitude,
            elevation: tables::optional_index(headers, "VAL_ELEV"),
            transition_alt: tables::optional_index(headers, "VAL_TRANSITION_ALT"),
            transition_level: tables::optional_index(headers, "VAL_TRANSITION_LEVEL"),
        },
    )
}

/// Reads the airports of a table.
pub fn read_airport_rows(table: &CsvTable) -> (r: Result<Vec<AirportCsvRow>, TableError>)
    ensures
        outcome(r) == airport_rows(table@),
{
    let columns: AirportColumns = match find_columns(&table.headers) {
        Ok(columns) => columns,
        Err(error) => return Err(error),
    };
    let ghost all = keyed::row_views(table.rows@);
    let ghost f = airport_row(columns);
    let mut out: Vec<AirportCsvRow> = Vec::new();
    assert(all.take(0).len() == 0);
    assert(text::views(out@) =~= text::collect(all.take(0), f));
    for i in 0..table.rows.len()
        invariant
            all == keyed::row_views(table.rows@),
            f == airport_row(columns),
            text::views(out@) == text::collect(all.take(i as int), f),
    {
        proof {
            text::lemma_collect_step(all, f, i as int);
            assert(all[i as int] == text::views(table.rows@[i as int]@));
        }
        let row: &Vec<String> = &table.rows[i];
        match (
            tables::optional_string(row, Some(columns.code_id)),
            tables::optional_string(row, Some(columns.latitude)),
            tables::optional_string(row, Some(columns.longitude)),
        ) {
            (Some(code_id), Some(latitude), Some(longitude)) => {
                match (parse_dms(latitude.as_str()), parse_dms(longitude.as_str())) {
                    (Some(latitude), Some(longitude)) => {
                        let airport = AirportCsvRow {
                            code_id,
                            code_iata: tables::optional_string(row, columns.code_iata),
                            txt_name: tables::optional_string(row, columns.txt_name),
                            latitude,
                            longitude,
                            val_elev: tables::optional_number(row, columns.elevation),
                            val_transition_alt: tables::optional_number(
                                row,
                                columns.transition_alt,
                            ),
                            val_transition_level: tables::optional_number(
                                row,
                                columns.transition_level,
                            ),
                        };
                        proof {
                            text::lemma_views_push(out@, airport);
                        }
                        out.push(airport);
                    },
                    _ => {},
                }
            },
            _ => {},
        }
    }
    assert(all.take(table.rows@.len() as int) == all);
    Ok(out)
}

/// Reads the airports in the bytes of a file, which is written in the GB18030 encoding.
pub fn parse_airport_csv(bytes: &[u8]) -> (r: Result<Vec<AirportCsvRow>, TableError>)
    requires
        bytes@.len() <= decode::MAX_DECODED_BYTES,
    ensures
        outcome(r) == (match tables::csv_table(decode::gb18030_text(bytes@), true) {
            Some(table) => airport_rows(table),
            None => Err(TableError::Unreadable),
        }),
{
    let content: String = decode::decode_gb18030(bytes);
    match tables::read_csv(content.as_str(), true) {
        Some(table) => read_airport_rows(&table),
        None => Err(TableError::Unreadable),
    }
}

/// What is computed for an airport: its position and magnetic variation as bit patterns, and its
/// altitudes in feet.
#[derive(Clone, Copy, PartialEq, Eq, Debug, Structural)]
pub struct AirportMeasure {
    pub latitude: u64,
    pub longitude: u64,
    pub variation: u64,
    pub elevation: Option<i64>,
    pub transition_altitude: Option<i64>,
    pub transition_level: Option<i64>,
}

/// An airport as it is written to the table.
#[verifier::ext_equal]
pub struct AirportInsertRow<T = String> {
    pub airport_identifier: T,
    pub airport_name: T,
    pub airport_ref_latitude: u64,
    pub airport_ref_longitude: u64,
    pub airport_type: T,
    pub area_code: T,
    pub ata_iata_code: Option<T>,
    pub city: T,
    pub continent: T,
    pub country_3letter: T,
    pub country: T,
    pub elevation: Option<i64>,
    pub fuel: T,
    pub icao_code: T,
    pub ifr_capability: T,
    pub longest_runway_surface_code: T,
    pub magnetic_variation: u64,
    pub speed_limit_altitude: i64,
    pub speed_limit: i64,
    pub state_2letter: T,
    pub state: T,
    pub time_zone: T,
    pub transition_altitude: Option<i64>,
    pub transition_level: Option<i64>,
}

impl View for AirportInsertRow {
    type V = AirportInsertRow<Seq<char>>;

    open spec fn view(&self) -> Self::V {
        AirportInsertRow {
            airport_identifier: self.airport_identifier@,
            airport_name: self.airport_name@,
            airport_ref_latitude: self.airport_ref_latitude,
            airport_ref_longitude: self.airport_ref_longitude,
            airport_type: self.airport_type@,
            area_code: self.area_code@,
            ata_iata_code: text::opt(self.ata_iata_code),
            city: self.city@,
            continent: self.continent@,
            country_3letter: self.country_3letter@,
            country: self.country@,
            elevation: self.elevation,
            fuel: self.fuel@,
            icao_code: self.icao_code@,
            ifr_capability: self.ifr_capability@,
            longest_runway_surface_code: self.longest_runway_surface_code@,
            magnetic_variation: self.magnetic_variation,
            speed_limit_altitude: self.speed_limit_altitude,
            speed_limit: self.speed_limit,
            state_2letter: self.state_2letter@,
            state: self.state@,
            time_zone: self.time_zone@,
            transition_altitude: self.transition_altitude,
            transition_level: self.transition_level,
        }
    }
}

impl Record for AirportInsertRow {
    open spec fn key(&self) -> Seq<Seq<char>> {
        seq![self.airport_identifier@]
    }

    fn key_row(&self) -> (r: Vec<String>) {
        let r: Vec<String> = vec![self.airport_identifier.clone()];
        assert(text::views(r@) =~= self.key());
        r
    }
}

impl Bindable for AirportInsertRow {
    open spec fn cell(&self, variation: Option<u64>, column: Seq<char>) -> Cell<Seq<char>> {
        if column == "airport_identifier"@ {
            Cell::Text(self@.airport_identifier)
        } else if column == "airport_name"@ {
            Cell::Text(self@.airport_name)
        } else if column == "airport_ref_latitude"@ {
            Cell::Bits(self.airport_ref_latitude)
        } else if column == "airport_ref_longitude"@ {
            Cell::Bits(self.airport_ref_longitude)
        } else if column == "airport_type"@ {
            Cell::Text(self@.airport_type)
        } else if column == "area_code"@ {
            Cell::Text(self@.area_code)
        } else if column == "ata_iata_code"@ {
            records::text_cell(self@.ata_iata_code)
        } else if column == "city"@ {
            Cell::Text(self@.city)
        } else if column == "continent"@ {
            Cell::Text(self@.continent)
        } else if column == "country_3letter"@ {
            Cell::Text(self@.country_3letter)
        } else if column == "country"@ {
            Cell::Text(self@.country)
        } else if column == "elevation"@ {
            records::integer_cell(self.elevation)
        } else if column == "fuel"@ {
            Cell::Text(self@.fuel)
        } else if column == "icao_code"@ {
            Cell::Text(self@.icao_code)
        } else if column == "ifr_capability"@ {
            Cell::Text(self@.ifr_capability)
        } else if column == "longest_runway_surface_code"@ {
            Cell::Text(self@.longest_runway_surface_code)
        } else if column == "magnetic_variation"@ {
            Cell::Bits(self.magnetic_variation)
        } else if column == "speed_limit_altitude"@ {
            Cell::Integer(self.speed_limit_altitude)
        } else if column == "speed_limit"@ {
            Cell::Integer(self.speed_limit)
        } else if column == "state_2letter"@ {
            Cell::Text(self@.state_2letter)
        } else if column == "state"@ {
            Cell::Text(self@.state)
        } else if column == "time_zone"@ {
            Cell::Text(self@.time_zone)
        } else if column == "transition_altitude"@ {
            records::integer_cell(self.transition_altitude)
        } else if column == "transition_level"@ {
            records::integer_cell(self.transition_level)
        } else {
            Cell::Null
        }
    }

    fn make_cell(&self, variation: Option<u64>, column: &str) -> (r: Cell) {
        if text::same(column, "airport_identifier") {
            Cell::Text(self.airport_identifier.clone())
        } else if text::same(column, "airport_name") {
            Cell::Text(self.airport_name.clone())
        } else if text::same(column, "airport_ref_latitude") {
            Cell::Bits(self.airport_ref_latitude)
        } else if text::same(column, "airport_ref_longitude") {
            Cell::Bits(self.airport_ref_longitude)
        } else if text::same(column, "airport_type") {
            Cell::Text(self.airport_type.clone())
        } else if text::same(column, "area_code") {
            Cell::Text(self.area_code.clone())
        } else if text::same(column, "ata_iata_code") {
            records::make_text_cell(&self.ata_iata_code)
        } else if text::same(column, "city") {
            Cell::Text(self.city.clone())
        } else if text::same(column, "continent") {
            Cell::Text(self.continent.clone())
        } else if text::same(column, "country_3letter") {
            Cell::Text(self.country_3letter.clone())
        } else if text::same(column, "country") {
            Cell::Text(self.country.clone())
        } else if text::same(column, "elevation") {
            records::make_integer_cell(self.elevation)
        } else if text::same(column, "fuel") {
            Cell::Text(self.fuel.clone())
        } else if text::same(column, "icao_code") {
            Cell::Text(self.icao_code.clone())
        } else if text::same(column, "ifr_capability") {
            Cell::Text(self.ifr_capability.clone())
        } else if text::same(column, "longest_runway_surface_code") {
            Cell::Text(self.longest_runway_surface_code.clone())
        } else if text::same(column, "magnetic_variation") {
            Cell::Bits(self.magnetic_variation)
        } else if text::same(column, "speed_limit_altitude") {
            Cell::Integer(self.speed_limit_altitude)
        } else if text::same(column, "speed_limit") {
            Cell::Integer(self.speed_limit)
        } else if text::same(column, "state_2letter") {
            Cell::Text(self.state_2letter.clone())
        } else if text::same(column, "state") {
            Cell::Text(self.state.clone())
        } else if text::same(column, "time_zone") {
            Cell::Text(self.time_zone.clone())
        } else if text::same(column, "transition_altitude") {
            records::make_integer_cell(self.transition_altitude)
        } else if text::same(column, "transition_level") {
            records::make_integer_cell(self.transition_level)
        } else {
            Cell::Null
        }
    }
}

/// The columns of the table, in the order in which they are written.
pub open spec fn insert_columns() -> Seq<Seq<char>> {
    seq![
        "airport_identifier"@,
        "airport_name"@,
        "airport_ref_latitude"@,
        "airport_ref_longitude"@,
        "airport_type"@,
        "area_code"@,
        "ata_iata_code"@,
        "city"@,
        "continent"@,
        "country_3letter"@,
        "country"@,
        "elevation"@,
        "fuel"@,
        "icao_code"@,
        "ifr_capability"@,
        "longest_runway_surface_code"@,
        "magnetic_variation"@,
        "speed_limit_altitude"@,
        "speed_limit"@,
        "state_2letter"@,
        "state"@,
        "time_zone"@,
        "transition_altitude"@,
        "transition_level"@,
    ]
}

/// The columns of the table, in the order in which they are written.
pub fn list_insert_columns() -> (r: Vec<String>)
    ensures
        text::views(r@) == insert_columns(),
{
    let r: Vec<String> = vec![
        text::copy("airport_identifier"),
        text::copy("airport_name"),
        text::copy("airport_ref_latitude"),
        text::copy("airport_ref_longitude"),
        text::copy("airport_type"),
        text::copy("area_code"),
        text::copy("ata_iata_code"),
        text::copy("city"),
        text::copy("continent"),
        text::copy("country_3letter"),
        text::copy("country"),
        text::copy("elevation"),
        text::copy("fuel"),
        text::copy("icao_code"),
        text::copy("ifr_capability"),
        text::copy("longest_runway_surface_code"),
        text::copy("magnetic_variation"),
        text::copy("speed_limit_altitude"),
        text::copy("speed_limit"),
        text::copy("state_2letter"),
        text::copy("state"),
        text::copy("time_zone"),
        text::copy("transition_altitude"),
        text::copy("transition_level"),
    ];
    assert(text::views(r@) =~= insert_columns());
    r
}

/// The statement that creates the table of airports.
pub fn create_table_statement() -> (r: &'static str)
    ensures
        r@ == "CREATE TABLE IF NOT EXISTS tbl_pa_airports (airport_identifier TEXT PRIMARY KEY, airport_name TEXT, airport_ref_latitude REAL, airport_ref_longitude REAL, airport_type TEXT, area_code TEXT, ata_iata_code TEXT, city TEXT, continent TEXT, country_3letter TEXT, country TEXT, elevation INTEGER, fuel TEXT, icao_code TEXT, ifr_capability TEXT, longest_runway_surface_code TEXT, magnetic_variation REAL, speed_limit_altitude INTEGER, speed_limit INTEGER, state_2letter TEXT, state TEXT, time_zone TEXT, transition_altitude INTEGER, transition_level INTEGER, UNIQUE(icao_code, airport_identifier))"@,
{
    "CREATE TABLE IF NOT EXISTS tbl_pa_airports (airport_identifier TEXT PRIMARY KEY, airport_name TEXT, airport_ref_latitude REAL, airport_ref_longitude REAL, airport_type TEXT, area_code TEXT, ata_iata_code TEXT, city TEXT, continent TEXT, country_3letter TEXT, country TEXT, elevation INTEGER, fuel TEXT, icao_code TEXT, ifr_capability TEXT, longest_runway_surface_code TEXT, magnetic_variation REAL, speed_limit_altitude INTEGER, speed_limit INTEGER, state_2letter TEXT, state TEXT, time_zone TEXT, transition_altitude INTEGER, transition_level INTEGER, UNIQUE(icao_code, airport_identifier))"
}

/// The query for the airports that the table has.
pub fn existing_airports_query() -> (r: &'static str)
    ensures
        r@ == "SELECT airport_identifier FROM tbl_pa_airports"@,
{
    "SELECT airport_identifier FROM tbl_pa_airports"
}

/// The query for the one airport that is taken from the master data.
pub fn zlyx_query() -> (r: &'static str)
    ensures
        r@ == "SELECT ICAO, IATA, name, latitude, longitude, alt, mag_var, ta, tl FROM airport WHERE ICAO='ZLYX'"@,
{
    "SELECT ICAO, IATA, name, latitude, longitude, alt, mag_var, ta, tl FROM airport WHERE ICAO='ZLYX'"
}

/// The statement that inserts an airport.
pub fn build_insert_sql() -> (sql: String)
    ensures
        sql@ == records::fixed_insert("INSERT OR IGNORE"@, "tbl_pa_airports"@, insert_columns()),
{
    records::fixed_insert_sql("INSERT OR IGNORE", "tbl_pa_airports", &list_insert_columns())
}

/// The first two characters of a text, or all of a shorter one.
pub open spec fn first_two(s: Seq<char>) -> Seq<char> {
    if s.len() < 2 {
        s
    } else {
        s.take(2)
    }
}

/// The airport that is written for an identifier, a code, its names and what was computed.
pub open spec fn airport_insert(
    identifier: Seq<char>,
    iata: Option<Seq<char>>,
    city: Seq<char>,
    name: Seq<char>,
    measure: AirportMeasure,
) -> AirportInsertRow<Seq<char>> {
    AirportInsertRow {
        airport_identifier: identifier,
        airport_name: name,
        airport_ref_latitude: measure.latitude,
        airport_ref_longitude: measure.longitude,
        airport_type: "C"@,
        area_code: "EEU"@,
        ata_iata_code: iata,
        city,
        continent: "ASIA"@,
        country_3letter: "CHN"@,
        country: "CHINA"@,
        elevation: measure.elevation,
        fuel: "NNNNNNNNNYNNNN"@,
        icao_code: first_two(identifier),
        ifr_capability: "Y"@,
        longest_runway_surface_code: "H"@,
        magnetic_variation: measure.variation,
        speed_limit_altitude: 10000,
        speed_limit: 250,
        state_2letter: ""@,
        state: ""@,
        time_zone: "H00"@,
        transition_altitude: measure.transition_altitude,
        transition_level: measure.transition_level,
    }
}

fn make_insert(
    identifier: &str,
    iata: Option<String>,
    city: String,
    name: String,
    measure: AirportMeasure,
) -> (r: AirportInsertRow)
    ensures
        r@ == airport_insert(identifier@, text::opt(iata), city@, name@, measure),
{
    let cs: Vec<char> = text::chars_of(identifier);
    let end: usize = if cs.len() < 2 {
        cs.len()
    } else {
        2
    };
    let icao_code: String = text::text_of(&cs, 0, end);
    assert(icao_code@ =~= first_two(identifier@));
    AirportInsertRow {
        airport_identifier: text::copy(identifier),
        airport_name: name,
        airport_ref_latitude: measure.latitude,
        airport_ref_longitude: measure.longitude,
        airport_type: text::copy("C"),
        area_code: text::copy("EEU"),
        ata_iata_code: iata,
        city,
        continent: text::copy("ASIA"),
        country_3letter: text::copy("CHN"),
        country: text::copy("CHINA"),
        elevation: measure.elevation,
        fuel: text::copy("NNNNNNNNNYNNNN"),
        icao_code,
        ifr_capability: text::copy("Y"),
        longest_runway_surface_code: text::copy("H"),
        magnetic_variation: measure.variation,
        speed_limit_altitude: 10000,
        speed_limit: 250,
        state_2letter: text::copy(""),
        state: text::copy(""),
        time_zone: text::copy("H00"),
        transition_altitude: measure.transition_altitude,
        transition_level: measure.transition_level,
    }
}

/// The airports that are written, given what was computed for each.
pub open spec fn airport_inserts(rows: Seq<AirportCsvRow>, measures: Seq<AirportMeasure>) -> Seq<
    AirportInsertRow<Seq<char>>,
> {
    Seq::new(
        rows.len(),
        |i: int|
            {
                let names = parsed_names(rows[i]@.txt_name);
                airport_insert(
                    rows[i]@.code_id,
                    rows[i]@.code_iata,
                    names.0,
                    names.1,
                    measures[i],
                )
            },
    )
}

/// Lays out airports, given what was computed for each.
pub fn build_airport_insert_rows(rows: &Vec<AirportCsvRow>, measures: &Vec<AirportMeasure>) -> (out:
    Vec<AirportInsertRow>)
    requires
        measures@.len() >= rows@.len(),
    ensures
        text::views(out@) == airport_inserts(rows@, measures@),
{
    let ghost goal = airport_inserts(rows@, measures@);
    let mut out: Vec<AirportInsertRow> = Vec::new();
    assert(text::views(out@) =~= goal.take(0));
    for i in 0..rows.len()
        invariant
            measures@.len() >= rows@.len(),
            goal == airport_inserts(rows@, measures@),
            text::views(out@) == goal.take(i as int),
    {
        let name: Option<&str> = match &rows[i].txt_name {
            Some(name) => Some(name.as_str()),
            None => None,
        };
        let (city, airport) = parse_names(name);
        let row: AirportInsertRow = make_insert(
            rows[i].code_id.as_str(),
            text::copy_opt(&rows[i].code_iata),
            city,
            airport,
            measures[i],
        );
        proof {
            text::lemma_views_push(out@, row);
            assert(row@ == goal[i as int]);
            assert(goal.take(i + 1) =~= goal.take(i as int).push(row@));
        }
        out.push(row);
    }
    assert(goal.take(rows@.len() as int) == goal);
    out
}

/// Chooses the airports that are written: those that the table does not have.
pub fn process_airports_to_db(rows: Vec<AirportInsertRow>, existing: &RowSet) -> (out: Vec<
    AirportInsertRow,
>)
    requires
        existing.wf(),
    ensures
        out@ == rows@.filter(records::absent(existing@)),
{
    records::retain_absent(rows, existing)
}

/// Whether the one airport that the source table lacks has to be taken from the master data.
pub fn needs_zlyx(existing: &RowSet) -> (r: bool)
    requires
        existing.wf(),
    ensures
        r == !existing@.contains(seq!["ZLYX"@]),
{
    let key: Vec<String> = vec![text::copy("ZLYX")];
    assert(text::views(key@) =~= seq!["ZLYX"@]);
    !existing.contains(&key)
}

/// An integer, zero where it is missing.
pub open spec fn or_zero(value: Option<i64>) -> Option<i64> {
    match value {
        Some(found) => Some(found),
        None => Some(0),
    }
}

/// Lays out an airport of the master data: its name stands for its city too; a missing code is
/// empty, missing transition altitudes are zero.
pub fn insert_zlyx(identifier: &str, iata: Option<String>, name: &str, measure: AirportMeasure) -> (r:
    AirportInsertRow)
    ensures
        r@ == airport_insert(
            identifier@,
            Some(
                match text::opt(iata) {
                    Some(code) => code,
                    None => ""@,
                },
            ),
            name@,
            name@,
            (AirportMeasure {
                transition_altitude: or_zero(measure.transition_altitude),
                transition_level: or_zero(measure.transition_level),
                ..measure
            }),
        ),
{
    let code: String = match iata {
        Some(code) => code,
        None => text::copy(""),
    };
    let altitude: Option<i64> = match measure.transition_altitude {
        Some(value) => Some(value),
        None => Some(0),
    };
    let level: Option<i64> = match measure.transition_level {
        Some(value) => Some(value),
        None => Some(0),
    };
    make_insert(
        identifier,
        Some(code),
        text::copy(name),
        text::copy(name),
        AirportMeasure {
            latitude: measure.latitude,
            longitude: measure.longitude,
            variation: measure.variation,
            elevation: measure.elevation,
            transition_altitude: altitude,
            transition_level: level,
        },
    )
}

/// Every column of the table holds what it is named for.
pub proof fn every_column_holds_what_it_is_named_for(row: AirportInsertRow, variation: Option<u64>)
    ensures
        row.cell(variation, "airport_identifier"@) == Cell::Text(row.airport_identifier@),
        row.cell(variation, "airport_name"@) == Cell::Text(row.airport_name@),
        row.cell(variation, "airport_ref_latitude"@) == Cell::<Seq<char>>::Bits(row.airport_ref_latitude),
        row.cell(variation, "airport_ref_longitude"@) == Cell::<Seq<char>>::Bits(row.airport_ref_longitude),
        row.cell(variation, "airport_type"@) == Cell::Text(row.airport_type@),
        row.cell(variation, "area_code"@) == Cell::Text(row.area_code@),
        row.cell(variation, "ata_iata_code"@) == records::text_cell(text::opt(row.ata_iata_code)),
        row.cell(variation, "city"@) == Cell::Text(row.city@),
        row.cell(variation, "continent"@) == Cell::Text(row.continent@),
        row.cell(variation, "country_3letter"@) == Cell::Text(row.country_3letter@),
        row.cell(variation, "country"@) == Cell::Text(row.country@),
        row.cell(variation, "elevation"@) == records::integer_cell(row.elevation),
        row.cell(variation, "fuel"@) == Cell::Text(row.fuel@),
        row.cell(variation, "icao_code"@) == Cell::Text(row.icao_code@),
        row.cell(variation, "ifr_capability"@) == Cell::Text(row.ifr_capability@),
        row.cell(variation, "longest_runway_surface_code"@) == Cell::Text(row.longest_runway_surface_code@),
        row.cell(variation, "magnetic_variation"@) == Cell::<Seq<char>>::Bits(row.magnetic_variation),
        row.cell(variation, "speed_limit_altitude"@) == Cell::<Seq<char>>::Integer(row.speed_limit_altitude),
        row.cell(variation, "speed_limit"@) == Cell::<Seq<char>>::Integer(row.speed_limit),
        row.cell(variation, "state_2letter"@) == Cell::Text(row.state_2letter@),
        row.cell(variation, "state"@) == Cell::Text(row.state@),
        row.cell(variation, "time_zone"@) == Cell::Text(row.time_zone@),
        row.cell(variation, "transition_altitude"@) == records::integer_cell(row.transition_altitude),
        row.cell(variation, "transition_level"@) == records::integer_cell(row.transition_level),
{
    reveal_strlit("airport_identifier");
    assert("airport_identifier"@.len() == 18);
    reveal_strlit("airport_name");
    assert("airport_name"@.len() == 12);
    reveal_strlit("airport_ref_latitude");
    assert("airport_ref_latitude"@.len() == 20);
    reveal_strlit("airport_ref_longitude");
    assert("airport_ref_longitude"@.len() == 21);
    reveal_strlit("airport_type");
    assert("airport_type"@.len() == 12);
    reveal_strlit("area_code");
    assert("area_code"@.len() == 9);
    reveal_strlit("ata_iata_code");
    assert("ata_iata_code"@.len() == 13);
    reveal_strlit("city");
    assert("city"@.len() == 4);
    reveal_strlit("continent");
    assert("continent"@.len() == 9);
    reveal_strlit("country_3letter");
    assert("country_3letter"@.len() == 15);
    reveal_strlit("country");
    assert("country"@.len() == 7);
    reveal_strlit("elevation");
    assert("elevation"@.len() == 9);
    reveal_strlit("fuel");
    assert("fuel"@.len() == 4);
    reveal_strlit("icao_code");
    assert("icao_code"@.len() == 9);
    reveal_strlit("ifr_capability");
    assert("ifr_capability"@.len() == 14);
    reveal_strlit("longest_runway_surface_code");
    assert("longest_runway_surface_code"@.len() == 27);
    reveal_strlit("magnetic_variation");
    assert("magnetic_variation"@.len() == 18);
    reveal_strlit("speed_limit_altitude");
    assert("speed_limit_altitude"@.len() == 20);
    reveal_strlit("speed_limit");
    assert("speed_limit"@.len() == 11);
    reveal_strlit("state_2letter");
    assert("state_2letter"@.len() == 13);
    reveal_strlit("state");
    assert("state"@.len() == 5);
    reveal_strlit("time_zone");
    assert("time_zone"@.len() == 9);
    reveal_strlit("transition_altitude");
    assert("transition_altitude"@.len() == 19);
    reveal_strlit("transition_level");
    assert("transition_level"@.len() == 16);
    assert("airport_name"@[8] != "airport_type"@[8]);
    assert("area_code"@[0] != "continent"@[0]);
    assert("area_code"@[0] != "elevation"@[0]);
    assert("continent"@[0] != "elevation"@[0]);
    assert("city"@[0] != "fuel"@[0]);
    assert("area_code"@[0] != "icao_code"@[0]);
    assert("continent"@[0] != "icao_code"@[0]);
    assert("elevation"@[0] != "icao_code"@[0]);
    assert("airport_identifier"@[0] != "magnetic_variation"@[0]);
    assert("airport_ref_latitude"@[0] != "speed_limit_altitude"@[0]);
    assert("ata_iata_code"@[0] != "state_2letter"@[0]);
    assert("area_code"@[0] != "time_zone"@[0]);
    assert("continent"@[0] != "time_zone"@[0]);
    assert("elevation"@[0] != "time_zone"@[0]);
    assert("icao_code"@[0] != "time_zone"@[0]);
}

/// No column of the table is left out, and none is written twice.
pub proof fn every_column_is_written(row: AirportInsertRow, variation: Option<u64>)
    ensures
        insert_columns().len() == 24,
        insert_columns().contains("airport_identifier"@),
        insert_columns().contains("airport_name"@),
        insert_columns().contains("airport_ref_latitude"@),
        insert_columns().contains("airport_ref_longitude"@),
        insert_columns().contains("airport_type"@),
        insert_columns().contains("area_code"@),
        insert_columns().contains("ata_iata_code"@),
        insert_columns().contains("city"@),
        insert_columns().contains("continent"@),
        insert_columns().contains("country_3letter"@),
        insert_columns().contains("country"@),
        insert_columns().contains("elevation"@),
        insert_columns().contains("fuel"@),
        insert_columns().contains("icao_code"@),
        insert_columns().contains("ifr_capability"@),
        insert_columns().contains("longest_runway_surface_code"@),
        insert_columns().contains("magnetic_variation"@),
        insert_columns().contains("speed_limit_altitude"@),
        insert_columns().contains("speed_limit"@),
        insert_columns().contains("state_2letter"@),
        insert_columns().contains("state"@),
        insert_columns().contains("time_zone"@),
        insert_columns().contains("transition_altitude"@),
        insert_columns().contains("transition_level"@),
        forall|i: int|
            0 <= i < insert_columns().len() ==> #[trigger] records::bound_row(row, variation, insert_columns())[i]
                == row.cell(variation, insert_columns()[i]),
{
    assert(insert_columns()[0] == "airport_identifier"@);
    assert(insert_columns()[1] == "airport_name"@);
    assert(insert_columns()[2] == "airport_ref_latitude"@);
    assert(insert_columns()[3] == "airport_ref_longitude"@);
    assert(insert_columns()[4] == "airport_type"@);
    assert(insert_columns()[5] == "area_code"@);
    assert(insert_columns()[6] == "ata_iata_code"@);
    assert(insert_columns()[7] == "city"@);
    assert(insert_columns()[8] == "continent"@);
    assert(insert_columns()[9] == "country_3letter"@);
    assert(insert_columns()[10] == "country"@);
    assert(insert_columns()[11] == "elevation"@);
    assert(insert_columns()[12] == "fuel"@);
    assert(insert_columns()[13] == "icao_code"@);
    assert(insert_columns()[14] == "ifr_capability"@);
    assert(insert_columns()[15] == "longest_runway_surface_code"@);
    assert(insert_columns()[16] == "magnetic_variation"@);
    assert(insert_columns()[17] == "speed_limit_altitude"@);
    assert(insert_columns()[18] == "speed_limit"@);
    assert(insert_columns()[19] == "state_2letter"@);
    assert(insert_columns()[20] == "state"@);
    assert(insert_columns()[21] == "time_zone"@);
    assert(insert_columns()[22] == "transition_altitude"@);
    assert(insert_columns()[23] == "transition_level"@);
}

/// Names with a spelling of their own are spelled by it, and no others are.
pub proof fn some_names_have_a_spelling_of_their_own(value: Seq<char>)
    ensures
        ({
            let name = text::trim(Blank::Unicode, value);
            &&& name == "\u{5415}\u{6881}"@ ==> airport_pinyin(value) == "L\u{dc}LIANG"@
            &&& name == "\u{4e09}\u{5973}\u{6cb3}"@ ==> airport_pinyin(value) == "SANN\u{dc}HE"@
            &&& name == "\u{4ed9}\u{5973}\u{5c71}"@ ==> airport_pinyin(value) == "XIANN\u{dc}SHAN"@
            &&& name == "\u{91cd}\u{5e86}"@ ==> airport_pinyin(value) == "CHONGQING"@
            &&& name == "\u{9f9f}\u{5179}"@ ==> airport_pinyin(value) == "QIUCI"@
            &&& name == "\u{957f}\u{5b89}"@ ==> airport_pinyin(value) == "CHANGAN"@
            &&& name == "\u{957f}\u{767d}\u{5c71}"@ ==> airport_pinyin(value) == "CHANGBAISHAN"@
            &&& name == "\u{671d}\u{9633}"@ ==> airport_pinyin(value) == "CHAOYANG"@
            &&& name != "\u{5415}\u{6881}"@
                && name != "\u{4e09}\u{5973}\u{6cb3}"@
                && name != "\u{4ed9}\u{5973}\u{5c71}"@
                && name != "\u{91cd}\u{5e86}"@
                && name != "\u{9f9f}\u{5179}"@
                && name != "\u{957f}\u{5b89}"@
                && name != "\u{957f}\u{767d}\u{5c71}"@
                && name != "\u{671d}\u{9633}"@
                ==> airport_pinyin(value) == names::upper_text(
                text::flat_collect(value, airport_speller()),
            )
        }),
{
    reveal_strlit("\u{5415}\u{6881}");
    assert("\u{5415}\u{6881}"@.len() == 2);
    reveal_strlit("\u{4e09}\u{5973}\u{6cb3}");
    assert("\u{4e09}\u{5973}\u{6cb3}"@.len() == 3);
    reveal_strlit("\u{4ed9}\u{5973}\u{5c71}");
    assert("\u{4ed9}\u{5973}\u{5c71}"@.len() == 3);
    reveal_strlit("\u{91cd}\u{5e86}");
    assert("\u{91cd}\u{5e86}"@.len() == 2);
    reveal_strlit("\u{9f9f}\u{5179}");
    assert("\u{9f9f}\u{5179}"@.len() == 2);
    reveal_strlit("\u{957f}\u{5b89}");
    assert("\u{957f}\u{5b89}"@.len() == 2);
    reveal_strlit("\u{957f}\u{767d}\u{5c71}");
    assert("\u{957f}\u{767d}\u{5c71}"@.len() == 3);
    reveal_strlit("\u{671d}\u{9633}");
    assert("\u{671d}\u{9633}"@.len() == 2);
    assert("\u{4e09}\u{5973}\u{6cb3}"@[0] != "\u{4ed9}\u{5973}\u{5c71}"@[0]);
    assert("\u{5415}\u{6881}"@[0] != "\u{91cd}\u{5e86}"@[0]);
    assert("\u{5415}\u{6881}"@[0] != "\u{9f9f}\u{5179}"@[0]);
    assert("\u{91cd}\u{5e86}"@[0] != "\u{9f9f}\u{5179}"@[0]);
    assert("\u{5415}\u{6881}"@[0] != "\u{957f}\u{5b89}"@[0]);
    assert("\u{91cd}\u{5e86}"@[0] != "\u{957f}\u{5b89}"@[0]);
    assert("\u{9f9f}\u{5179}"@[0] != "\u{957f}\u{5b89}"@[0]);
    assert("\u{4e09}\u{5973}\u{6cb3}"@[0] != "\u{957f}\u{767d}\u{5c71}"@[0]);
    assert("\u{4ed9}\u{5973}\u{5c71}"@[0] != "\u{957f}\u{767d}\u{5c71}"@[0]);
    assert("\u{5415}\u{6881}"@[0] != "\u{671d}\u{9633}"@[0]);
    assert("\u{91cd}\u{5e86}"@[0] != "\u{671d}\u{9633}"@[0]);
    assert("\u{9f9f}\u{5179}"@[0] != "\u{671d}\u{9633}"@[0]);
    assert("\u{957f}\u{5b89}"@[0] != "\u{671d}\u{9633}"@[0]);
}

/// An angle is a letter, the digits of its degrees, two of its minutes and the rest of its seconds.
/// Latitudes have two digits of degrees, longitudes three; south and west are negative.
pub proof fn angles_are_read_by_their_digits(s: Seq<char>)
    ensures
        s.len() < 7 ==> dms(s) is None,
        s.len() >= 7 && s[0] != 'N' && s[0] != 'S' && s[0] != 'E' && s[0] != 'W' ==> dms(s) is None,
        s.len() >= 7 && (s[0] == 'N' || s[0] == 'S') ==> {
            &&& dms(s) is Some <==> numeric::float_literal(s.subrange(1, 3))
                && numeric::float_literal(s.subrange(3, 5)) && numeric::float_literal(s.skip(5))
            &&& dms(s) matches Some(angle) ==> {
                &&& angle.degrees == s.subrange(1, 3)
                &&& angle.minutes == s.subrange(3, 5)
                &&& angle.seconds == s.skip(5)
                &&& angle.negative <==> s[0] == 'S'
            }
        },
        s.len() >= 7 && (s[0] == 'E' || s[0] == 'W') ==> {
            &&& dms(s) is Some <==> numeric::float_literal(s.subrange(1, 4))
                && numeric::float_literal(s.subrange(4, 6)) && numeric::float_literal(s.skip(6))
            &&& dms(s) matches Some(angle) ==> {
                &&& angle.degrees == s.subrange(1, 4)
                &&& angle.minutes == s.subrange(4, 6)
                &&& angle.seconds == s.skip(6)
                &&& angle.negative <==> s[0] == 'W'
            }
        },
{
}

/// Two characters are spelled with an umlaut, and all others as elsewhere.
pub proof fn two_characters_are_spelled_with_an_umlaut(c: char)
    ensures
        airport_spelled('\u{5415}') == seq!['L', '\u{dc}'],
        airport_spelled('\u{5973}') == seq!['N', '\u{dc}'],
        c != '\u{5415}' && c != '\u{5973}' ==> airport_spelled(c) == names::spelled(c),
{
}

/// The city stands before the first slash and the airport behind it; a name without a slash names
/// both, and no name leaves both unknown.
pub proof fn the_city_stands_before_the_airport(parts: Seq<Seq<char>>, name: Seq<char>)
    ensures
        parts.len() == 0 ==> city_and_airport(parts) == ("UNKNOWN"@, "UNKNOWN"@),
        parts.len() == 1 ==> city_and_airport(parts) == (parts[0], parts[0]),
        parts.len() >= 2 ==> city_and_airport(parts) == (parts[0], parts[1]),
        parsed_names(None) == ("UNKNOWN"@, "UNKNOWN"@),
        name_parts(name).len() == 0 ==> parsed_names(Some(name)) == ("UNKNOWN"@, "UNKNOWN"@),
        name_parts(name).len() == 1 ==> parsed_names(Some(name)) == (
            airport_pinyin(name_parts(name)[0]),
            airport_pinyin(name_parts(name)[0]),
        ),
        name_parts(name).len() >= 2 ==> parsed_names(Some(name)) == (
            airport_pinyin(name_parts(name)[0]),
            airport_pinyin(name_parts(name)[1]),
        ),
{
}

/// The parts of a name are what stands between its slashes, trimmed; empty ones are left out.
pub proof fn the_parts_of_a_name_stand_between_slashes(name: Seq<char>, part: Seq<char>)
    ensures
        name_parts(name).contains(part) <==> part.len() > 0 && exists|i: int|
            0 <= i < text::split(text::trim(Blank::Unicode, name), '/').len() && text::trim(
                Blank::Unicode,
                #[trigger] text::split(text::trim(Blank::Unicode, name), '/')[i],
            ) == part,
{
    let pieces = text::split(text::trim(Blank::Unicode, name), '/');
    let f = part_chooser();
    text::lemma_collect_contains(pieces, f, part);
    assert forall|i: int| 0 <= i < pieces.len() implies (f(i, #[trigger] pieces[i]) == Some(part)
        <==> part.len() > 0 && text::trim(Blank::Unicode, pieces[i]) == part) by {}
}

/// Airports are read from the columns of their names; a row without a code or without two angles is
/// left out.
pub proof fn airports_are_read_from_their_columns(
    headers: Seq<Seq<char>>,
    rows: Seq<Seq<Seq<char>>>,
    found: AirportCsvRow<Seq<char>, Dms<Seq<char>>>,
)
    requires
        airport_rows((headers, rows)) is Ok,
    ensures
        (airport_rows((headers, rows))->Ok_0).contains(found) <==> exists|i: int|
            0 <= i < rows.len() && {
                let row = #[trigger] rows[i];
                let latitude = tables::field(row, tables::column(headers, "GEO_LAT_ACCURACY"@));
                let longitude = tables::field(row, tables::column(headers, "GEO_LONG_ACCURACY"@));
                &&& tables::field(row, tables::column(headers, "CODE_ID"@)) == Some(found.code_id)
                &&& latitude is Some && dms(latitude->0) == Some(found.latitude)
                &&& longitude is Some && dms(longitude->0) == Some(found.longitude)
                &&& found.code_iata == tables::field(row, tables::column(headers, "CODE_IATA"@))
                &&& found.txt_name == tables::field(row, tables::column(headers, "TXT_NAME"@))
                &&& found.val_elev == tables::number(row, tables::column(headers, "VAL_ELEV"@))
                &&& found.val_transition_alt == tables::number(
                    row,
                    tables::column(headers, "VAL_TRANSITION_ALT"@),
                )
                &&& found.val_transition_level == tables::number(
                    row,
                    tables::column(headers, "VAL_TRANSITION_LEVEL"@),
                )
            },
{
    let f = airport_row(airport_columns(headers)->Ok_0);
    text::lemma_collect_contains(rows, f, found);
    assert forall|i: int| 0 <= i < rows.len() implies (f(i, #[trigger] rows[i]) == Some(found)
        <==> {
        let row = rows[i];
        let latitude = tables::field(row, tables::column(headers, "GEO_LAT_ACCURACY"@));
        let longitude = tables::field(row, tables::column(headers, "GEO_LONG_ACCURACY"@));
        &&& tables::field(row, tables::column(headers, "CODE_ID"@)) == Some(found.code_id)
        &&& latitude is Some && dms(latitude->0) == Some(found.latitude)
        &&& longitude is Some && dms(longitude->0) == Some(found.longitude)
        &&& found.code_iata == tables::field(row, tables::column(headers, "CODE_IATA"@))
        &&& found.txt_name == tables::field(row, tables::column(headers, "TXT_NAME"@))
        &&& found.val_elev == tables::number(row, tables::column(headers, "VAL_ELEV"@))
        &&& found.val_transition_alt == tables::number(
            row,
            tables::column(headers, "VAL_TRANSITION_ALT"@),
        )
        &&& found.val_transition_level == tables::number(
            row,
            tables::column(headers, "VAL_TRANSITION_LEVEL"@),
        )
    }) by {}
}

/// A table is refused for the first of its code, latitude and longitude that it lacks.
pub proof fn airport_tables_are_refused_for_a_required_column(
    table: (Seq<Seq<char>>, Seq<Seq<Seq<char>>>),
)
    ensures
        ({
            let code = tables::column(table.0, "CODE_ID"@) is Some;
            let latitude = tables::column(table.0, "GEO_LAT_ACCURACY"@) is Some;
            let longitude = tables::column(table.0, "GEO_LONG_ACCURACY"@) is Some;
            &&& airport_rows(table) is Ok <==> code && latitude && longitude
            &&& !code ==> airport_rows(table) == Err::<
                Seq<AirportCsvRow<Seq<char>, Dms<Seq<char>>>>,
                TableError<Seq<char>>,
            >(TableError::MissingColumn("CODE_ID"@))
            &&& code && !latitude ==> airport_rows(table) == Err::<
                Seq<AirportCsvRow<Seq<char>, Dms<Seq<char>>>>,
                TableError<Seq<char>>,
            >(TableError::MissingColumn("GEO_LAT_ACCURACY"@))
            &&& code && latitude && !longitude ==> airport_rows(table) == Err::<
                Seq<AirportCsvRow<Seq<char>, Dms<Seq<char>>>>,
                TableError<Seq<char>>,
            >(TableError::MissingColumn("GEO_LONG_ACCURACY"@))
        }),
{
}

/// An airport is written with its own code, names and measures, and with what all airports share.
pub proof fn an_airport_is_written_as_it_was_read(
    rows: Seq<AirportCsvRow>,
    measures: Seq<AirportMeasure>,
    i: int,
)
    requires
        0 <= i < rows.len(),
        measures.len() >= rows.len(),
    ensures
        ({
            let code = rows[i].code_id@;
            let written = airport_inserts(rows, measures)[i];
            &&& airport_inserts(rows, measures).len() == rows.len()
            &&& written.airport_identifier == code
            &&& written.ata_iata_code == text::opt(rows[i].code_iata)
            &&& written.city == parsed_names(text::opt(rows[i].txt_name)).0
            &&& written.airport_name == parsed_names(text::opt(rows[i].txt_name)).1
            &&& written.airport_ref_latitude == measures[i].latitude
            &&& written.airport_ref_longitude == measures[i].longitude
            &&& written.magnetic_variation == measures[i].variation
            &&& written.elevation == measures[i].elevation
            &&& written.transition_altitude == measures[i].transition_altitude
            &&& written.transition_level == measures[i].transition_level
            &&& code.len() >= 2 ==> written.icao_code == seq![code[0], code[1]]
            &&& code.len() < 2 ==> written.icao_code == code
            &&& written.airport_type == "C"@
            &&& written.area_code == "EEU"@
            &&& written.continent == "ASIA"@
            &&& written.country == "CHINA"@
            &&& written.country_3letter == "CHN"@
            &&& written.fuel == "NNNNNNNNNYNNNN"@
            &&& written.ifr_capability == "Y"@
            &&& written.longest_runway_surface_code == "H"@
            &&& written.speed_limit == 250
            &&& written.speed_limit_altitude == 10000
            &&& written.state == ""@
            &&& written.state_2letter == ""@
            &&& written.time_zone == "H00"@
        }),
{
    let code = rows[i].code_id@;
    if code.len() >= 2 {
        assert(code.take(2) =~= seq![code[0], code[1]]);
    }
}

/// An airport is known by its identifier.
pub proof fn an_airport_is_known_by_its_identifier(row: AirportInsertRow)
    ensures
        row.key() == seq![row.airport_identifier@],
        or_zero(None) == Some(0i64),
        row.elevation is Some ==> or_zero(row.elevation) == row.elevation,
{
}

/// Every field of a `Dms` is seen under its own name.
pub proof fn every_field_of_dms_is_seen(it: Dms)
    ensures
        it@.negative == it.negative,
        it@.degrees == it.degrees@,
        it@.minutes == it.minutes@,
        it@.seconds == it.seconds@,
{
}

/// Every field of an `AirportCsvRow` is seen under its own name.
pub proof fn every_field_of_airport_csv_row_is_seen(it: AirportCsvRow)
    ensures
        it@.code_id == it.code_id@,
        it@.code_iata == text::opt(it.code_iata),
        it@.txt_name == text::opt(it.txt_name),
        it@.latitude == it.latitude@,
        it@.longitude == it.longitude@,
        it@.val_elev == text::opt(it.val_elev),
        it@.val_transition_alt == text::opt(it.val_transition_alt),
        it@.val_transition_level == text::opt(it.val_transition_level),
{
}

/// Every field of an `AirportInsertRow` is seen under its own name.
pub proof fn every_field_of_airport_insert_row_is_seen(it: AirportInsertRow)
    ensures
        it@.airport_identifier == it.airport_identifier@,
        it@.airport_name == it.airport_name@,
        it@.airport_ref_latitude == it.airport_ref_latitude,
        it@.airport_ref_longitude == it.airport_ref_longitude,
        it@.airport_type == it.airport_type@,
        it@.area_code == it.area_code@,
        it@.ata_iata_code == text::opt(it.ata_iata_code),
        it@.city == it.city@,
        it@.continent == it.continent@,
        it@.country_3letter == it.country_3letter@,
        it@.country == it.country@,
        it@.elevation == it.elevation,
        it@.fuel == it.fuel@,
        it@.icao_code == it.icao_code@,
        it@.ifr_capability == it.ifr_capability@,
        it@.longest_runway_surface_code == it.longest_runway_surface_code@,
        it@.magnetic_variation == it.magnetic_variation,
        it@.speed_limit_altitude == it.speed_limit_altitude,
        it@.speed_limit == it.speed_limit,
        it@.state_2letter == it.state_2letter@,
        it@.state == it.state@,
        it@.time_zone == it.time_zone@,
        it@.transition_altitude == it.transition_altitude,
        it@.transition_level == it.transition_level,
{
}

} // verus!
